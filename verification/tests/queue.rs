use waiting_room::queue::{estimate_wait_millis, QueuePosition, SessionId, WaitingQueue};

#[test]
fn test_fifo_ordering() {
    let mut q = WaitingQueue::new();
    let ids: Vec<SessionId> = (0..5).map(|_| SessionId::new()).collect();

    for id in &ids {
        q.enqueue(*id);
    }

    assert_eq!(q.waiting_count(), 5);

    for (i, id) in ids.iter().enumerate() {
        let pos = q.get_position(id).unwrap();
        assert_eq!(pos.position, i + 1);
    }

    let admitted = q.admit_from_queue(2);
    assert_eq!(admitted.len(), 2);
    assert_eq!(admitted[0], ids[0]);
    assert_eq!(admitted[1], ids[1]);
    assert_eq!(q.active_count(), 2);
    assert_eq!(q.waiting_count(), 3);

    let pos = q.get_position(&ids[2]).unwrap();
    assert_eq!(pos.position, 1);
}

#[test]
fn test_admit_direct() {
    let mut q = WaitingQueue::new();
    let id = SessionId::new();
    q.admit_session(id);
    assert!(q.is_active(&id));
    assert!(!q.is_waiting(&id));
    assert_eq!(q.active_count(), 1);
}

#[test]
fn test_touch_updates_last_seen() {
    let mut q = WaitingQueue::new();
    let id = SessionId::new();
    q.admit_at(id, 1_000);
    let before = q.last_seen(&id).unwrap();
    q.touch_at(&id, 1_000 + 10_000_000);
    let after = q.last_seen(&id).unwrap();
    assert!(after > before);
    assert_eq!(after, 10_001_000);
}

#[test]
fn touch_through_the_clock_never_moves_last_seen_back() {
    let mut q = WaitingQueue::new();
    let id = SessionId::new();
    q.admit_session(id);
    let before = q.last_seen(&id).unwrap();
    while q.clock_nanos() <= before {}
    q.touch(&id);
    let after = q.last_seen(&id).unwrap();
    assert!(after > before);
}

#[test]
fn touch_of_unknown_session_changes_nothing() {
    let mut q = WaitingQueue::new();
    q.touch_at(&SessionId(7), 50);
    assert_eq!(q.last_seen(&SessionId(7)), None);
    assert_eq!(q.active_count(), 0);
}

#[test]
fn positions_of_unknown_sessions_are_absent() {
    let mut q = WaitingQueue::new();
    q.enqueue_at(SessionId(1), 0);
    assert!(q.get_position(&SessionId(2)).is_none());
    assert!(!q.is_waiting(&SessionId(2)));
}

#[test]
fn wait_estimate_defaults_to_five_minutes_per_session() {
    let mut q = WaitingQueue::new();
    q.admit_at(SessionId(100), 0);
    q.admit_at(SessionId(101), 0);
    for k in 1..=3u128 {
        q.enqueue_at(SessionId(k), 0);
    }
    let p = q.get_position(&SessionId(3)).unwrap();
    assert_eq!(
        p,
        QueuePosition { position: 3, total_waiting: 3, eta_millis: 450_000 }
    );
}

#[test]
fn wait_estimate_formula_values() {
    assert_eq!(estimate_wait_millis(1, 0, 0, 0), 300_000);
    assert_eq!(estimate_wait_millis(4, 2, 0, 0), 600_000);
    assert_eq!(estimate_wait_millis(3, 3, 9_000, 3), 3_000);
    assert_eq!(estimate_wait_millis(5, 2, 10_000, 4), 6_250);
    assert_eq!(estimate_wait_millis(usize::MAX, 1, u128::MAX, 1), u128::MAX);
}

#[test]
fn expiry_uses_idle_time_and_feeds_the_estimate() {
    let mut q = WaitingQueue::new();
    q.admit_at(SessionId(1), 0);
    q.admit_at(SessionId(2), 5_000_000_000);
    let n = q.expire_stale_at(3, 6_000_000_000);
    assert_eq!(n, 1);
    assert!(!q.is_active(&SessionId(1)));
    assert!(q.is_active(&SessionId(2)));
    let s = q.stats();
    assert_eq!(s.active_count, 1);
    assert_eq!(s.avg_active_duration_millis, 6_000);
    assert_eq!(s.total_admitted, 2);
    q.enqueue_at(SessionId(3), 6_000_000_000);
    let p = q.get_position(&SessionId(3)).unwrap();
    assert_eq!(p.eta_millis, 6_000);
}

#[test]
fn a_session_idle_exactly_the_ttl_stays() {
    let mut q = WaitingQueue::new();
    q.admit_at(SessionId(1), 0);
    assert_eq!(q.expire_stale_at(2, 2_000_000_000), 0);
    assert!(q.is_active(&SessionId(1)));
    assert_eq!(q.expire_stale_at(2, 2_000_000_001), 1);
}

#[test]
fn admitting_more_than_wait_takes_the_whole_line() {
    let mut q = WaitingQueue::new();
    q.enqueue_at(SessionId(1), 0);
    q.enqueue_at(SessionId(2), 0);
    let a = q.admit_from_queue_at(10, 1);
    assert_eq!(a, vec![SessionId(1), SessionId(2)]);
    assert_eq!(q.waiting_count(), 0);
    assert_eq!(q.active_count(), 2);
    assert!(q.admit_from_queue_at(3, 2).is_empty());
}

#[test]
fn visitors_and_flush() {
    let mut q = WaitingQueue::new();
    q.record_visitor();
    q.record_visitor();
    q.admit_at(SessionId(1), 0);
    q.enqueue_at(SessionId(2), 0);
    let s = q.stats();
    assert_eq!(s.total_visitors, 2);
    assert_eq!(s.total_admitted, 1);
    assert_eq!(s.waiting_count, 1);
    q.flush();
    let s = q.stats();
    assert_eq!(s.active_count, 0);
    assert_eq!(s.waiting_count, 0);
    assert_eq!(s.total_visitors, 0);
    assert_eq!(s.total_admitted, 0);
    assert_eq!(s.avg_active_duration_millis, 0);
}

#[test]
fn enqueued_twice_counts_the_last_place() {
    let mut q = WaitingQueue::new();
    q.enqueue_at(SessionId(1), 0);
    q.enqueue_at(SessionId(2), 0);
    q.enqueue_at(SessionId(1), 0);
    assert_eq!(q.get_position(&SessionId(1)).unwrap().position, 3);
    assert_eq!(q.waiting_count(), 3);
}

#[test]
fn estimates_grow_along_the_line() {
    let mut last = 0u128;
    for p in 1..=50usize {
        let e = estimate_wait_millis(p, 7, 123_456, 9);
        assert!(e >= last);
        last = e;
    }
}

#[test]
fn places_follow_arrival() {
    let mut q = WaitingQueue::new();
    for k in 10..20u128 {
        q.enqueue_at(SessionId(k), 0);
    }
    for (i, k) in (10..20u128).enumerate() {
        assert_eq!(q.get_position(&SessionId(k)).unwrap().position, i + 1);
    }
}

#[test]
fn counters_follow_the_history() {
    let mut q = WaitingQueue::new();
    q.admit_at(SessionId(1), 0);
    q.record_visitor();
    for k in 2..6u128 {
        q.record_visitor();
        q.enqueue_at(SessionId(k), 0);
    }
    assert_eq!(q.admit_from_queue_at(3, 1).len(), 3);
    assert_eq!(q.expire_stale_at(1, 5_000_000_000), 4);
    let s = q.stats();
    assert_eq!((s.total_admitted, s.total_visitors, s.active_count, s.waiting_count), (4, 5, 0, 1));
    q.flush();
    q.admit_at(SessionId(9), 0);
    assert_eq!(q.stats().total_admitted, 1);
}
