use loginhuset::models::User;
use loginhuset::store::TokenStore;
use loginhuset::store::TOKEN_TTL_SECONDS;

fn user(id: i32, email: &str, name: &str) -> User {
    User { id, email: email.to_string(), name: name.to_string() }
}

#[test]
fn first_consume_returns_user_then_absent() {
    let mut store = TokenStore::new();
    store.issue("tok-1".to_string(), user(1, "a@example.com", "A"), 1000);
    let first = store.consume("tok-1", 10);
    assert!(first.is_some());
    let u = first.unwrap();
    assert_eq!(u.id, 1);
    assert_eq!(u.email, "a@example.com");
    assert_eq!(u.name, "A");
    // Every subsequent consumption of the same token observes absence.
    assert!(store.consume("tok-1", 11).is_none());
    assert!(store.consume("tok-1", 12).is_none());
}

#[test]
fn unknown_token_yields_absence() {
    let mut store = TokenStore::new();
    assert!(store.consume("never-issued", 0).is_none());
}

#[test]
fn consume_at_deadline_or_later_yields_absence() {
    let mut store = TokenStore::new();
    store.issue("tok".to_string(), user(1, "a@example.com", "A"), 500);
    // The deadline itself is already too late.
    assert!(store.consume("tok", 500).is_none());
    // And the token is gone for good.
    assert!(store.consume("tok", 100).is_none());
}

#[test]
fn consume_just_before_deadline_succeeds() {
    let mut store = TokenStore::new();
    store.issue("tok".to_string(), user(2, "b@example.com", "B"), 500);
    let got = store.consume("tok", 499);
    assert_eq!(got.unwrap().id, 2);
}

#[test]
fn expiry_removes_only_overdue_tokens() {
    let mut store = TokenStore::new();
    store.issue("fresh".to_string(), user(1, "a@example.com", "A"), 1000);
    store.issue("stale".to_string(), user(2, "b@example.com", "B"), 200);
    // The deferred removal for "fresh" fires early: a no-op.
    store.expire("fresh", 500);
    // The one for "stale" fires after its deadline: the token is dropped.
    store.expire("stale", 500);
    assert!(store.consume("stale", 300).is_none());
    assert_eq!(store.consume("fresh", 600).unwrap().id, 1);
}

#[test]
fn expire_after_consume_is_a_noop() {
    let mut store = TokenStore::new();
    store.issue("tok".to_string(), user(1, "a@example.com", "A"), 1000);
    assert!(store.consume("tok", 10).is_some());
    // The racing deferred removal observes absence.
    store.expire("tok", 1000);
    assert!(store.consume("tok", 20).is_none());
}

#[test]
fn reissuing_a_token_supersedes_the_old_binding() {
    let mut store = TokenStore::new();
    store.issue("tok".to_string(), user(1, "a@example.com", "A"), 100);
    store.issue("tok".to_string(), user(2, "b@example.com", "B"), 1000);
    let got = store.consume("tok", 500).unwrap();
    assert_eq!(got.id, 2);
    assert!(store.consume("tok", 500).is_none());
}

#[test]
fn distinct_tokens_are_independent() {
    let mut store = TokenStore::new();
    let deadline = TOKEN_TTL_SECONDS;
    store.issue("t1".to_string(), user(1, "a@example.com", "A"), deadline);
    store.issue("t2".to_string(), user(2, "b@example.com", "B"), deadline);
    assert_eq!(store.consume("t1", 1).unwrap().id, 1);
    assert_eq!(store.consume("t2", 1).unwrap().id, 2);
}

#[test]
fn linearized_concurrent_consumes_admit_exactly_one() {
    // Concurrent consume calls are serialized by the caller's lock; in
    // every such linearization exactly one call gets the user.
    let mut store = TokenStore::new();
    store.issue("tok".to_string(), user(1, "a@example.com", "A"), 1000);
    let mut successes = 0;
    for t in [10u64, 11, 12, 13, 14] {
        if store.consume("tok", t).is_some() {
            successes += 1;
        }
    }
    assert_eq!(successes, 1);
}
