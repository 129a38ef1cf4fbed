use waiting_room::backend::{GateResult, MemoryBackend};
use waiting_room::queue::SessionId;

#[test]
fn gate_admits_until_capacity_then_enqueues() {
    let mut b = MemoryBackend::new();
    assert_eq!(b.gate_check_at(None, SessionId(1), 2, 0), GateResult::Admitted);
    assert_eq!(b.gate_check_at(None, SessionId(2), 2, 0), GateResult::Admitted);
    assert_eq!(
        b.gate_check_at(None, SessionId(3), 2, 0),
        GateResult::Enqueued { position: 1, total: 1 }
    );
    assert_eq!(
        b.gate_check_at(None, SessionId(4), 2, 0),
        GateResult::Enqueued { position: 2, total: 2 }
    );
    let s = b.stats();
    assert_eq!(s.active_count, 2);
    assert_eq!(s.waiting_count, 2);
}

#[test]
fn gate_recognises_known_sessions() {
    let mut b = MemoryBackend::new();
    b.gate_check_at(Some(SessionId(1)), SessionId(9), 1, 0);
    b.gate_check_at(Some(SessionId(2)), SessionId(9), 1, 0);
    b.gate_check_at(Some(SessionId(3)), SessionId(9), 1, 0);
    assert_eq!(b.gate_check_at(Some(SessionId(1)), SessionId(9), 1, 5), GateResult::Active);
    assert_eq!(
        b.gate_check_at(Some(SessionId(3)), SessionId(9), 1, 5),
        GateResult::Waiting { position: 2, total: 2 }
    );
    assert!(!b.is_active(&SessionId(9)));
}

#[test]
fn an_unknown_cookie_session_is_taken_in_under_its_own_id() {
    let mut b = MemoryBackend::new();
    assert_eq!(b.gate_check_at(Some(SessionId(7)), SessionId(8), 5, 0), GateResult::Admitted);
    assert!(b.is_active(&SessionId(7)));
    assert!(!b.is_active(&SessionId(8)));
}

#[test]
fn zero_capacity_enqueues_everyone() {
    let mut b = MemoryBackend::new();
    assert_eq!(
        b.gate_check_at(None, SessionId(1), 0, 0),
        GateResult::Enqueued { position: 1, total: 1 }
    );
    assert_eq!(b.stats().active_count, 0);
}

#[test]
fn reaper_expires_idle_and_fills_free_places() {
    let mut b = MemoryBackend::new();
    b.gate_check_at(None, SessionId(1), 2, 0);
    b.gate_check_at(None, SessionId(2), 2, 0);
    b.gate_check_at(None, SessionId(3), 2, 0);
    b.gate_check_at(None, SessionId(4), 2, 0);
    b.gate_check_at(None, SessionId(5), 2, 0);
    b.gate_check_at(Some(SessionId(2)), SessionId(9), 2, 9_000_000_000);
    let (expired, admitted) = b.reaper_cycle_at(5, 2, 10_000_000_000);
    assert_eq!(expired, 1);
    assert_eq!(admitted, 1);
    assert!(!b.is_active(&SessionId(1)));
    assert!(b.is_active(&SessionId(2)));
    assert!(b.is_active(&SessionId(3)));
    assert_eq!(b.get_position(&SessionId(5)).unwrap().position, 2);
    assert_eq!(b.get_position(&SessionId(4)).unwrap().position, 1);
    let s = b.stats();
    assert_eq!(s.active_count, 2);
    assert_eq!(s.avg_active_duration_millis, 10_000);
}

#[test]
fn reaper_with_nothing_to_do() {
    let mut b = MemoryBackend::new();
    assert_eq!(b.reaper_cycle_at(30, 10, 0), (0, 0));
    assert_eq!(b.reaper_cycle(30, 10), (0, 0));
}

#[test]
fn gate_check_on_the_clock() {
    let mut b = MemoryBackend::new();
    assert_eq!(b.gate_check(None, SessionId(1), 1, 30), GateResult::Admitted);
    assert_eq!(b.gate_check(Some(SessionId(1)), SessionId(2), 1, 30), GateResult::Active);
    b.flush();
    assert_eq!(b.stats().active_count, 0);
    assert!(b.get_position(&SessionId(1)).is_none());
}

#[test]
fn entering_sessions_are_counted_as_visitors() {
    let mut b = MemoryBackend::new();
    b.gate_check_at(None, SessionId(1), 1, 0);
    assert_eq!(b.stats().total_visitors, 1);
    b.gate_check_at(None, SessionId(2), 1, 0);
    assert_eq!(b.stats().total_visitors, 2);
    b.gate_check_at(Some(SessionId(1)), SessionId(9), 1, 0);
    b.gate_check_at(Some(SessionId(2)), SessionId(9), 1, 0);
    assert_eq!(b.stats().total_visitors, 2);
    assert_eq!(b.stats().total_admitted, 1);
}
