use vstd::prelude::*;

use crate::errors::{AuthFailure, ErrorKind};
use crate::passwords::{bcrypt_hash_parses, bcrypt_matches, Password};
use crate::session::{Session, SessionManager, SessionToken, DEFAULT_TOKEN_TIMEOUT_SECONDS};
use crate::user::User;

verus! {

/// What a successful login hands back: the user record and the freshly
/// minted session whose token goes out on the wire.
#[derive(Debug)]
pub struct LoginOutcome {
    pub user: User,
    pub session: Session,
}

/// Build the record to persist for a new account: hash the password and
/// leave the id unassigned for the store to fill on insert. Fails exactly
/// when hashing does (OS entropy failure).
pub fn create_user_record(
    email: String,
    password: &str,
    first_name: String,
    last_name: String,
) -> (r: Result<User, ErrorKind>)
    ensures
        r is Ok ==> {
            &&& r->Ok_0.id is None
            &&& r->Ok_0.email@ == email@
            &&& bcrypt_matches(password@, r->Ok_0.password@)
            &&& bcrypt_hash_parses(r->Ok_0.password@)
            &&& r->Ok_0.password@.len() == 60
            &&& r->Ok_0.first_name@ == first_name@
            &&& r->Ok_0.last_name@ == last_name@
        },
        r is Err ==> r->Err_0 == ErrorKind::PasswordInvalid,
{
    let hashed = match Password::new(password) {
        Ok(p) => p,
        Err(e) => {
            return Err(e);
        },
    };
    Ok(
        User {
            id: None,
            email,
            password: hashed.hashed().to_owned(),
            first_name,
            last_name,
        },
    )
}

/// Decide a login attempt. `found` is the store's lookup of the email: an
/// absent user is `NotFound`; a password that does not match is
/// `Unauthenticated`; on a match a session is minted and remembered, and
/// the outcome carries it. The session map changes only on success.
pub fn login_user(
    sessions: &mut SessionManager,
    found: Option<User>,
    password: &str,
    now: i64,
) -> (r: Result<LoginOutcome, ErrorKind>)
    requires
        old(sessions).wf(),
        now + DEFAULT_TOKEN_TIMEOUT_SECONDS <= i64::MAX,
    ensures
        final(sessions).wf(),
        r is Err ==> final(sessions)@ == old(sessions)@,
        found is None ==> r is Err && r->Err_0 == ErrorKind::NotFound,
        found matches Some(u) && !bcrypt_matches(password@, u.password@) ==> r is Err && (
        r->Err_0 == ErrorKind::Unauthenticated || r->Err_0 == ErrorKind::PasswordInvalid),
        found matches Some(u) && bcrypt_hash_parses(u.password@) && !bcrypt_matches(
            password@,
            u.password@,
        ) ==> r is Err && r->Err_0 == ErrorKind::Unauthenticated,
        found matches Some(u) && bcrypt_hash_parses(u.password@) && bcrypt_matches(
            password@,
            u.password@,
        ) && u.id is Some ==> (r is Ok || r->Err_0 == ErrorKind::Internal),
        r is Err && r->Err_0 == ErrorKind::PasswordInvalid ==> found is Some
            && !bcrypt_hash_parses(found->0.password@),
        r matches Ok(out) ==> {
            &&& found is Some
            &&& out.user == found->0
            &&& bcrypt_matches(password@, out.user.password@)
            &&& out.session.user == out.user
            &&& out.session.create_time == now
            &&& out.session.expire_time == now + DEFAULT_TOKEN_TIMEOUT_SECONDS
            &&& out.session.token.spec_str().len() == 60
            &&& final(sessions)@ == old(sessions)@.insert(
                out.session.token.spec_str(),
                out.session,
            )
        },
{
    let user = match found {
        Some(u) => u,
        None => {
            return Err(ErrorKind::NotFound);
        },
    };
    let matches_stored = match user.verify_password(password) {
        Ok(b) => b,
        Err(e) => {
            return Err(e);
        },
    };
    if !matches_stored {
        return Err(ErrorKind::Unauthenticated);
    }
    let session = match sessions.new_session(user.clone(), now) {
        Ok(s) => s,
        Err(e) => {
            return Err(e);
        },
    };
    Ok(LoginOutcome { user, session })
}

/// Tie an incoming request to its user: resolve the `Auth` metadata value,
/// look the token up, then validate the session. A missing header, an
/// unknown token and an expired session are told apart; an expired token is
/// dropped from the store as a side effect.
pub fn verify_auth(sessions: &mut SessionManager, token: Option<SessionToken>, now: i64) -> (r:
    Result<User, AuthFailure>)
    requires
        old(sessions).wf(),
    ensures
        final(sessions).wf(),
        token is None ==> r is Err && r->Err_0 == AuthFailure::MissingAuth && final(sessions)@
            == old(sessions)@,
        token is Some && !old(sessions)@.contains_key(token->0.spec_str()) ==> r is Err
            && r->Err_0 == AuthFailure::InvalidToken && final(sessions)@ == old(sessions)@,
        token is Some && old(sessions)@.contains_key(token->0.spec_str())
            && old(sessions)@[token->0.spec_str()].spec_is_valid(now) ==> r is Ok
            && r->Ok_0 == old(sessions)@[token->0.spec_str()].user
            && final(sessions)@ == old(sessions)@,
        token is Some && old(sessions)@.contains_key(token->0.spec_str())
            && !old(sessions)@[token->0.spec_str()].spec_is_valid(now) ==> r is Err
            && r->Err_0 == AuthFailure::Expired
            && final(sessions)@ == old(sessions)@.remove(token->0.spec_str()),
{
    let t = match token {
        Some(t) => t,
        None => {
            return Err(AuthFailure::MissingAuth);
        },
    };
    proof {
        sessions.lemma_key_token();
    }
    let session = match sessions.get_session(&t) {
        Some(s) => s,
        None => {
            return Err(AuthFailure::InvalidToken);
        },
    };
    match sessions.validate_session(&session, now) {
        Some(user) => Ok(user),
        None => Err(AuthFailure::Expired),
    }
}

} // verus!
