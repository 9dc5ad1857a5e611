use moss_street::auth::{create_user_record, login_user, verify_auth};
use moss_street::errors::{AuthFailure, ErrorKind};
use moss_street::passwords::Password;
use moss_street::session::{SessionManager, SessionToken};
use moss_street::user::User;

#[test]
fn test_password_hashing_and_verification() {
    let plaintext = "my_secure_password";

    // Create a new Password instance
    let password = Password::new(plaintext).unwrap();

    // Verify that the hashed password matches the plaintext
    assert!(password.verify(plaintext).unwrap());

    // Verify that an incorrect password does not match
    assert!(!password.verify("wrong_password").unwrap());
}

#[test]
fn test_password_hash_is_not_plaintext() {
    let password = Password::new("p").unwrap();
    assert_eq!(password.hashed().len(), 60);
    assert_ne!(password.hashed(), "p");
}

#[test]
fn test_verify_rejects_malformed_hash() {
    let password = Password::from_hash("not a bcrypt hash");
    assert_eq!(password.verify("p"), Err(ErrorKind::PasswordInvalid));
}

#[test]
fn test_login_round_trip() {
    // Create alice, give her the id the store would assign, then log in.
    let mut record = create_user_record(
        "alice@x".to_string(),
        "p",
        "Alice".to_string(),
        "Example".to_string(),
    )
    .unwrap();
    assert_eq!(record.id, None);
    assert_eq!(record.email, "alice@x");
    record.id = Some(1);

    let mut sessions = SessionManager::new();
    let outcome = login_user(&mut sessions, Some(record.clone()), "p", 0).unwrap();
    assert!(!outcome.session.token.as_str().is_empty());
    assert_eq!(outcome.user.email, "alice@x");

    let wrong = login_user(&mut sessions, Some(record), "wrong", 0);
    assert_eq!(wrong.unwrap_err(), ErrorKind::Unauthenticated);
}

#[test]
fn test_login_with_malformed_stored_hash() {
    // A stored credential that is not a bcrypt hash cannot be checked:
    // the login reports the broken credential, not a wrong password.
    let mut sessions = SessionManager::new();
    let user = User {
        id: Some(3),
        email: "carol@x".to_string(),
        password: "not-a-bcrypt-hash".to_string(),
        first_name: "Carol".to_string(),
        last_name: "Example".to_string(),
    };
    assert_eq!(
        login_user(&mut sessions, Some(user), "p", 0).unwrap_err(),
        ErrorKind::PasswordInvalid
    );
}

#[test]
fn test_login_unknown_user() {
    let mut sessions = SessionManager::new();
    assert_eq!(
        login_user(&mut sessions, None, "p", 0).unwrap_err(),
        ErrorKind::NotFound
    );
}

#[test]
fn test_verify_auth_pipeline() {
    let mut sessions = SessionManager::new();
    let mut record = create_user_record(
        "bob@x".to_string(),
        "pw",
        "Bob".to_string(),
        "Example".to_string(),
    )
    .unwrap();
    record.id = Some(2);
    let outcome = login_user(&mut sessions, Some(record), "pw", 0).unwrap();
    let token = outcome.session.token;

    // Missing header
    assert_eq!(
        verify_auth(&mut sessions, None, 1).unwrap_err(),
        AuthFailure::MissingAuth
    );
    // Unknown token
    let bogus = SessionToken::from_string("no-such-token".to_string());
    assert_eq!(
        verify_auth(&mut sessions, Some(bogus), 1).unwrap_err(),
        AuthFailure::InvalidToken
    );
    // Live token resolves the user
    let user = verify_auth(&mut sessions, Some(token.clone()), 1).unwrap();
    assert_eq!(user.email, "bob@x");
    // Expired token is refused and swept
    assert_eq!(
        verify_auth(&mut sessions, Some(token.clone()), 31).unwrap_err(),
        AuthFailure::Expired
    );
    assert_eq!(
        verify_auth(&mut sessions, Some(token), 1).unwrap_err(),
        AuthFailure::InvalidToken
    );
}
