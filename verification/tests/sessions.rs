use moss_street::session::{Session, SessionManager};
use moss_street::user::User;

fn fake_user() -> User {
    User {
        id: Some(123),
        email: "abd".to_owned(),
        password: "123".to_owned(),
        first_name: "bob".to_owned(),
        last_name: "bob".to_owned(),
    }
}

#[test]
fn test_session_is_valid() {
    let user = fake_user();

    let mock_time: i64 = 0;
    let expire_duration: i64 = 1;
    let session = Session::new(user, 123, mock_time, expire_duration).unwrap();

    assert!(session.is_valid(mock_time));

    // Fast-forward time
    assert!(!session.is_valid(mock_time + 1));
}

#[test]
fn test_new_session() {
    let mut manager = SessionManager::default();
    let user = fake_user();

    let now: i64 = 0;
    let session = manager
        .new_session(user.clone(), now)
        .expect("Session should be created");
    assert_eq!(session.user, user);
    assert!(session.is_valid(now));
}

#[test]
fn test_get_session() {
    let mut manager = SessionManager::default();
    let user = fake_user();
    let now: i64 = 0;
    let session = manager
        .new_session(user.clone(), now)
        .expect("Session should be created");

    let retrieved = manager
        .get_session(&session.token)
        .expect("Session should exist");
    assert_eq!(retrieved.user, user);
}

#[test]
fn test_validate_session() {
    let mut manager = SessionManager::default();
    let user = fake_user();
    let now: i64 = 0;
    let session = manager
        .new_session(user.clone(), now)
        .expect("Session should be created");

    let validated_user = manager
        .validate_session(&session, now)
        .expect("Session should be valid");
    assert_eq!(validated_user, user);
}

#[test]
fn test_expired_session_cleanup() {
    let mut manager = SessionManager::default();
    let user = fake_user();
    let start: i64 = 1_700_000_000;
    let session = manager
        .new_session(user.clone(), start)
        .expect("Session should be created");

    // Fast-forward time past the 30 s lifetime
    manager.cleanup(start + 35);

    assert!(
        manager.get_session(&session.token).is_none(),
        "Expired session should be removed"
    );
}

#[test]
fn test_session_expiry_flow() {
    // Minted at t = 0, lifetime 30 s: still found at t = 10, refused and
    // swept at t = 31, gone afterwards.
    let mut manager = SessionManager::default();
    let session = manager.new_session(fake_user(), 0).unwrap();

    let found = manager.get_session(&session.token);
    assert!(found.is_some());
    assert!(found.unwrap().is_valid(10));

    assert!(manager.validate_session(&session, 31).is_none());
    assert!(manager.get_session(&session.token).is_none());
}

#[test]
fn test_validate_keeps_live_session_in_store() {
    let mut manager = SessionManager::default();
    let session = manager.new_session(fake_user(), 0).unwrap();

    assert!(manager.validate_session(&session, 10).is_some());
    assert!(manager.get_session(&session.token).is_some());
}

#[test]
fn test_cleanup_is_idempotent() {
    let mut manager = SessionManager::default();
    let s1 = manager.new_session(fake_user(), 0).unwrap();
    let mut other = fake_user();
    other.id = Some(7);
    let s2 = manager.new_session(other, 40).unwrap();

    manager.cleanup(45);
    assert!(manager.get_session(&s1.token).is_none());
    assert!(manager.get_session(&s2.token).is_some());

    manager.cleanup(45);
    assert!(manager.get_session(&s2.token).is_some());
}

#[test]
fn test_new_session_requires_saved_user() {
    let mut manager = SessionManager::default();
    let mut user = fake_user();
    user.id = None;
    assert!(manager.new_session(user, 0).is_err());
}

#[test]
fn test_token_shape() {
    let mut manager = SessionManager::default();
    let session = manager.new_session(fake_user(), 0).unwrap();
    assert_eq!(session.token.as_str().len(), 60);
    assert_eq!(session.create_time, 0);
    assert_eq!(session.expire_time, 30);
}
