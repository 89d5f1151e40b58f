use gated_listener::error::ServerError;
use gated_listener::permit::{Admission, Claim, PermitPool, PermitScope, Release};

fn claim(owner: u64, unit: u64) -> Claim {
    Claim { owner, unit }
}

fn pool(scope: PermitScope, capacity: i64) -> PermitPool {
    PermitPool::new(scope, capacity).unwrap()
}

#[test]
fn a_pool_without_permits_is_refused() {
    assert!(matches!(
        PermitPool::new(PermitScope::Global, 0),
        Err(ServerError::PermitPoolMisconfigured)
    ));
    assert!(matches!(
        PermitPool::new(PermitScope::PerOwner, -3),
        Err(ServerError::PermitPoolMisconfigured)
    ));
    assert!(matches!(
        PermitPool::new(PermitScope::Global, i64::MIN),
        Err(ServerError::PermitPoolMisconfigured)
    ));
}

#[test]
fn a_new_pool_is_open_and_empty() {
    let p = pool(PermitScope::PerOwner, 7);
    assert_eq!(p.capacity(), 7);
    assert_eq!(p.scope(), PermitScope::PerOwner);
    assert!(!p.is_closed());
    assert_eq!(p.in_use(), 0);
    assert_eq!(p.waiting(), 0);
    assert_eq!(p.load(4), 0);
}

#[test]
fn permits_are_granted_up_to_capacity_and_no_further() {
    let mut p = pool(PermitScope::Global, 2);
    assert_eq!(p.acquire(claim(1, 1)), Admission::Granted);
    assert_eq!(p.acquire(claim(2, 1)), Admission::Granted);
    assert_eq!(p.acquire(claim(3, 1)), Admission::Suspended);
    assert_eq!(p.acquire(claim(1, 2)), Admission::Suspended);
    assert_eq!(p.in_use(), 2);
    assert_eq!(p.waiting(), 2);
    assert!(p.holds(claim(1, 1)));
    assert!(p.holds(claim(2, 1)));
    assert!(!p.holds(claim(3, 1)));
    assert!(p.is_waiting(claim(3, 1)));
    assert!(p.is_waiting(claim(1, 2)));
    assert_eq!(p.load(9), 2);
}

#[test]
fn asking_again_keeps_the_place_and_gives_the_same_answer() {
    let mut p = pool(PermitScope::Global, 1);
    assert_eq!(p.acquire(claim(0, 1)), Admission::Granted);
    assert_eq!(p.acquire(claim(0, 1)), Admission::Granted);
    assert_eq!(p.in_use(), 1);
    assert_eq!(p.acquire(claim(0, 2)), Admission::Suspended);
    assert_eq!(p.acquire(claim(0, 3)), Admission::Suspended);
    assert_eq!(p.acquire(claim(0, 2)), Admission::Suspended);
    assert_eq!(p.waiting(), 2);
    assert_eq!(p.release(claim(0, 1)), Release::Transferred(claim(0, 2)));
}

#[test]
fn a_released_permit_goes_to_the_longest_waiter() {
    let mut p = pool(PermitScope::Global, 1);
    assert_eq!(p.acquire(claim(1, 10)), Admission::Granted);
    assert_eq!(p.acquire(claim(2, 20)), Admission::Suspended);
    assert_eq!(p.acquire(claim(3, 30)), Admission::Suspended);
    assert_eq!(p.acquire(claim(4, 40)), Admission::Suspended);
    assert_eq!(p.release(claim(1, 10)), Release::Transferred(claim(2, 20)));
    assert_eq!(p.release(claim(2, 20)), Release::Transferred(claim(3, 30)));
    assert_eq!(p.release(claim(3, 30)), Release::Transferred(claim(4, 40)));
    assert_eq!(p.release(claim(4, 40)), Release::Freed);
    assert_eq!(p.in_use(), 0);
    assert_eq!(p.waiting(), 0);
}

#[test]
fn a_permit_is_never_returned_twice() {
    let mut p = pool(PermitScope::Global, 2);
    assert_eq!(p.acquire(claim(1, 1)), Admission::Granted);
    assert_eq!(p.acquire(claim(1, 2)), Admission::Granted);
    assert_eq!(p.release(claim(1, 1)), Release::Freed);
    assert_eq!(p.release(claim(1, 1)), Release::NotHeld);
    assert_eq!(p.in_use(), 1);
    assert_eq!(p.release(claim(5, 5)), Release::NotHeld);
    assert_eq!(p.in_use(), 1);
    assert!(p.holds(claim(1, 2)));
}

#[test]
fn a_waiter_holds_nothing_and_cannot_release() {
    let mut p = pool(PermitScope::Global, 1);
    p.acquire(claim(1, 1));
    assert_eq!(p.acquire(claim(1, 2)), Admission::Suspended);
    assert_eq!(p.release(claim(1, 2)), Release::NotHeld);
    assert!(p.is_waiting(claim(1, 2)));
    assert_eq!(p.in_use(), 1);
}

#[test]
fn cancel_takes_a_waiter_out_and_keeps_the_order_of_the_rest() {
    let mut p = pool(PermitScope::Global, 1);
    p.acquire(claim(1, 1));
    p.acquire(claim(1, 2));
    p.acquire(claim(1, 3));
    p.acquire(claim(1, 4));
    assert!(p.cancel(claim(1, 3)));
    assert!(!p.cancel(claim(1, 3)));
    assert!(!p.cancel(claim(1, 1)));
    assert!(p.holds(claim(1, 1)));
    assert_eq!(p.waiting(), 2);
    assert_eq!(p.release(claim(1, 1)), Release::Transferred(claim(1, 2)));
    assert_eq!(p.release(claim(1, 2)), Release::Transferred(claim(1, 4)));
}

#[test]
fn per_owner_scope_gives_every_owner_its_own_budget() {
    let mut p = pool(PermitScope::PerOwner, 1);
    assert_eq!(p.acquire(claim(1, 1)), Admission::Granted);
    assert_eq!(p.acquire(claim(2, 1)), Admission::Granted);
    assert_eq!(p.acquire(claim(3, 1)), Admission::Granted);
    assert_eq!(p.acquire(claim(1, 2)), Admission::Suspended);
    assert_eq!(p.acquire(claim(2, 2)), Admission::Suspended);
    assert_eq!(p.load(1), 1);
    assert_eq!(p.load(2), 1);
    assert_eq!(p.load(4), 0);
    assert_eq!(p.in_use(), 3);
    // The permit of owner 2 goes to the waiter of owner 2, though the
    // waiter of owner 1 came first.
    assert_eq!(p.release(claim(2, 1)), Release::Transferred(claim(2, 2)));
    // Owner 3 has no waiter: its permit goes back to its budget.
    assert_eq!(p.release(claim(3, 1)), Release::Freed);
    assert!(p.is_waiting(claim(1, 2)));
    assert_eq!(p.release(claim(1, 1)), Release::Transferred(claim(1, 2)));
}

#[test]
fn per_owner_scope_counts_each_owner_up_to_capacity() {
    let mut p = pool(PermitScope::PerOwner, 2);
    assert_eq!(p.acquire(claim(7, 1)), Admission::Granted);
    assert_eq!(p.acquire(claim(7, 2)), Admission::Granted);
    assert_eq!(p.acquire(claim(7, 3)), Admission::Suspended);
    assert_eq!(p.acquire(claim(8, 1)), Admission::Granted);
    assert_eq!(p.load(7), 2);
    assert_eq!(p.load(8), 1);
}

#[test]
fn release_owner_takes_all_claims_of_the_owner_and_refills_in_order() {
    let mut p = pool(PermitScope::Global, 2);
    p.acquire(claim(1, 1));
    p.acquire(claim(1, 2));
    p.acquire(claim(2, 1));
    p.acquire(claim(1, 3));
    p.acquire(claim(3, 1));
    p.acquire(claim(4, 1));
    let purge = p.release_owner(1);
    assert_eq!(purge.revoked, vec![claim(1, 1), claim(1, 2)]);
    assert_eq!(purge.dropped, vec![claim(1, 3)]);
    assert_eq!(purge.promoted, vec![claim(2, 1), claim(3, 1)]);
    assert!(p.holds(claim(2, 1)));
    assert!(p.holds(claim(3, 1)));
    assert!(p.is_waiting(claim(4, 1)));
    assert!(!p.holds(claim(1, 1)));
    assert!(!p.holds(claim(1, 2)));
    assert!(!p.is_waiting(claim(1, 3)));
    assert_eq!(p.in_use(), 2);
    assert_eq!(p.waiting(), 1);
}

#[test]
fn release_owner_of_a_stranger_changes_nothing() {
    let mut p = pool(PermitScope::Global, 1);
    p.acquire(claim(1, 1));
    p.acquire(claim(2, 1));
    let purge = p.release_owner(9);
    assert!(purge.revoked.is_empty());
    assert!(purge.dropped.is_empty());
    assert!(purge.promoted.is_empty());
    assert!(p.holds(claim(1, 1)));
    assert!(p.is_waiting(claim(2, 1)));
}

#[test]
fn release_owner_per_owner_wakes_nobody() {
    let mut p = pool(PermitScope::PerOwner, 1);
    p.acquire(claim(1, 1));
    p.acquire(claim(1, 2));
    p.acquire(claim(2, 1));
    p.acquire(claim(2, 2));
    let purge = p.release_owner(1);
    assert_eq!(purge.revoked, vec![claim(1, 1)]);
    assert_eq!(purge.dropped, vec![claim(1, 2)]);
    assert!(purge.promoted.is_empty());
    assert!(p.holds(claim(2, 1)));
    assert!(p.is_waiting(claim(2, 2)));
    assert_eq!(p.load(1), 0);
}

#[test]
fn close_flushes_the_waiters_in_order_and_keeps_the_holders() {
    let mut p = pool(PermitScope::Global, 1);
    p.acquire(claim(1, 1));
    p.acquire(claim(2, 1));
    p.acquire(claim(3, 1));
    let flushed = p.close();
    assert_eq!(flushed, vec![claim(2, 1), claim(3, 1)]);
    assert!(p.is_closed());
    assert_eq!(p.waiting(), 0);
    assert!(p.holds(claim(1, 1)));
    assert_eq!(p.acquire(claim(4, 1)), Admission::Unavailable);
    assert_eq!(p.acquire(claim(1, 1)), Admission::Granted);
    assert_eq!(p.in_use(), 1);
    assert_eq!(p.release(claim(1, 1)), Release::Freed);
    assert_eq!(p.acquire(claim(1, 1)), Admission::Unavailable);
    assert!(p.close().is_empty());
}
