//! The credential store on a transient in-memory database.
use authn::database::Database;
use authn::server::Error;

#[test]
fn insert_then_get_returns_the_record() {
    let mut db = Database::new(":memory:").unwrap();
    db.insert_user("alice", "hash-a").unwrap();
    let u = db.get_user_by_name("alice").unwrap();
    assert_eq!(u.name, "alice");
    assert_eq!(u.pass_hash, "hash-a");
    assert_eq!(u.token_version, 0);
}

#[test]
fn duplicate_insert_fails_and_keeps_the_first_record() {
    let mut db = Database::new(":memory:").unwrap();
    db.insert_user("alice", "hash-a").unwrap();
    let r = db.insert_user("alice", "hash-b");
    assert!(matches!(r, Err(Error::DuplicateName(n)) if n == "alice"));
    let u = db.get_user_by_name("alice").unwrap();
    assert_eq!(u.pass_hash, "hash-a");
}

#[test]
fn missing_user_is_not_found() {
    let db = Database::new(":memory:").unwrap();
    let r = db.get_user_by_name("nobody");
    assert!(matches!(r, Err(Error::UserNotFound(n)) if n == "nobody"));
}

#[test]
fn increment_adds_exactly_one_per_call() {
    let mut db = Database::new(":memory:").unwrap();
    db.insert_user("alice", "hash-a").unwrap();
    for expected in 1..=5u32 {
        db.increment_token("alice").unwrap();
        assert_eq!(db.get_user_by_name("alice").unwrap().token_version, expected);
    }
}

#[test]
fn increment_of_a_missing_user_is_a_silent_no_op() {
    let mut db = Database::new(":memory:").unwrap();
    db.insert_user("alice", "hash-a").unwrap();
    db.increment_token("nobody").unwrap();
    assert_eq!(db.get_user_by_name("alice").unwrap().token_version, 0);
    assert!(db.get_user_by_name("nobody").is_err());
}

#[test]
fn two_users_are_independent() {
    let mut db = Database::new(":memory:").unwrap();
    db.insert_user("alice", "hash-a").unwrap();
    db.insert_user("bob", "hash-b").unwrap();
    db.increment_token("alice").unwrap();
    assert_eq!(db.get_user_by_name("alice").unwrap().token_version, 1);
    assert_eq!(db.get_user_by_name("bob").unwrap().token_version, 0);
}
