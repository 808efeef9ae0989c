use vote_service::pool::{AcquireOutcome, ConnectionPool};

fn lease_id(outcome: &AcquireOutcome) -> u64 {
    match outcome {
        AcquireOutcome::Granted(id) => *id,
        AcquireOutcome::Connecting(id) => *id,
        AcquireOutcome::Wait => panic!("expected a lease, got a wait"),
    }
}

#[test]
fn within_capacity_every_request_gets_its_own_connection() {
    let mut pool = ConnectionPool::new(3);
    let a = lease_id(&pool.acquire());
    let b = lease_id(&pool.acquire());
    let c = lease_id(&pool.acquire());
    assert_ne!(a, b);
    assert_ne!(a, c);
    assert_ne!(b, c);
}

#[test]
fn beyond_capacity_a_request_waits_rather_than_failing() {
    let mut pool = ConnectionPool::new(2);
    lease_id(&pool.acquire());
    lease_id(&pool.acquire());
    assert_eq!(pool.acquire(), AcquireOutcome::Wait);
    assert_eq!(pool.acquire(), AcquireOutcome::Wait);
}

#[test]
fn a_released_connection_is_granted_again() {
    let mut pool = ConnectionPool::new(2);
    let a = lease_id(&pool.acquire());
    let b = lease_id(&pool.acquire());
    assert!(pool.is_leased(a));
    pool.release(a);
    assert!(!pool.is_leased(a));
    assert!(pool.is_leased(b));
    assert_eq!(pool.acquire(), AcquireOutcome::Granted(a));
}

#[test]
fn a_retired_connection_is_replaced_lazily_by_a_fresh_one() {
    let mut pool = ConnectionPool::new(2);
    let a = lease_id(&pool.acquire());
    let b = lease_id(&pool.acquire());
    assert_eq!(pool.acquire(), AcquireOutcome::Wait);
    pool.retire(a);
    let replacement = pool.acquire();
    assert!(matches!(replacement, AcquireOutcome::Connecting(_)));
    let c = lease_id(&replacement);
    assert_ne!(c, a);
    assert_ne!(c, b);
}

#[test]
fn fresh_connections_are_established_lazily() {
    let mut pool = ConnectionPool::new(4);
    assert!(matches!(pool.acquire(), AcquireOutcome::Connecting(_)));
    let mut pool_of_none = ConnectionPool::new(0);
    assert_eq!(pool_of_none.acquire(), AcquireOutcome::Wait);
}
