use graphql_pool::pool::{Pool, WorkItem};

fn item(q: &str) -> WorkItem {
    WorkItem { query: q.to_string(), operation_name: None, variables: None }
}

#[test]
fn new_pool_is_idle_and_empty() {
    let p = Pool::new(4);
    assert_eq!(p.worker_count(), 4);
    assert_eq!(p.pending_count(), 0);
}

#[test]
fn submit_hands_out_increasing_tickets() {
    let mut p = Pool::new(2);
    let t0 = p.submit(item("{ a }"));
    let t1 = p.submit(item("{ b }"));
    let t2 = p.submit(item("{ c }"));
    assert_eq!(t0, 0);
    assert_eq!(t1, 1);
    assert_eq!(t2, 2);
    assert_eq!(p.pending_count(), 3);
}

#[test]
fn assign_serves_in_submission_order() {
    let mut p = Pool::new(2);
    let t0 = p.submit(item("{ first }"));
    let t1 = p.submit(item("{ second }"));
    let a = p.assign(0).expect("first assignment");
    assert_eq!(a.ticket, t0);
    assert_eq!(a.item.query, "{ first }");
    let b = p.assign(1).expect("second assignment");
    assert_eq!(b.ticket, t1);
    assert_eq!(b.item.query, "{ second }");
    assert_eq!(p.pending_count(), 0);
}

#[test]
fn assign_on_empty_queue_returns_none() {
    let mut p = Pool::new(1);
    assert!(p.assign(0).is_none());
}

#[test]
fn each_item_is_delivered_exactly_once() {
    let mut p = Pool::new(3);
    let mut tickets = Vec::new();
    for i in 0..3 {
        tickets.push(p.submit(item(&format!("{{ q{} }}", i))));
    }
    let mut delivered = Vec::new();
    for w in 0..3 {
        let pending = p.assign(w).expect("one item per worker");
        delivered.push(pending.ticket);
    }
    assert!(p.assign(0).is_none() || p.pending_count() == 0);
    delivered.sort();
    assert_eq!(delivered, tickets);
    assert_eq!(p.pending_count(), 0);
}

#[test]
fn complete_frees_the_worker_for_the_next_item() {
    let mut p = Pool::new(1);
    let t0 = p.submit(item("{ a }"));
    let t1 = p.submit(item("{ b }"));
    let first = p.assign(0).expect("worker takes the oldest item");
    assert_eq!(first.ticket, t0);
    // The single worker is busy: item B waits until A completes.
    assert_eq!(p.pending_count(), 1);
    let done = p.complete(0);
    assert_eq!(done, t0);
    let second = p.assign(0).expect("worker takes the next item");
    assert_eq!(second.ticket, t1);
}

#[test]
fn resubmitting_the_same_query_is_not_cached() {
    let mut p = Pool::new(2);
    let t0 = p.submit(item("{ version }"));
    let t1 = p.submit(item("{ version }"));
    assert_ne!(t0, t1);
    assert_eq!(p.pending_count(), 2);
    let a = p.assign(0).expect("first copy");
    let b = p.assign(1).expect("second copy");
    assert_eq!(a.item.query, b.item.query);
    assert_ne!(a.ticket, b.ticket);
}
