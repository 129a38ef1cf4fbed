use waiting_room::scheduler::utc_now_nanos;
use waiting_room::backend::GateResult;
use waiting_room::queue::{QueuePosition, QueueStats, SessionId};
use waiting_room::redis_backend::{
    now_ms, parse_gate_reply, parse_reaper_reply, parse_stats_reply, read_duration,
    redis_position, redis_queue_stats, session_id_str, RedisStatsFields,
};

fn strs(v: &[&str]) -> Vec<String> {
    v.iter().map(|s| s.to_string()).collect()
}

#[test]
fn gate_replies() {
    assert_eq!(parse_gate_reply(&strs(&["active", "0", "0"])), GateResult::Active);
    assert_eq!(parse_gate_reply(&strs(&["admitted", "0", "0"])), GateResult::Admitted);
    assert_eq!(
        parse_gate_reply(&strs(&["waiting", "3", "10"])),
        GateResult::Waiting { position: 3, total: 10 }
    );
    assert_eq!(
        parse_gate_reply(&strs(&["enqueued", "11", "11"])),
        GateResult::Enqueued { position: 11, total: 11 }
    );
    assert_eq!(
        parse_gate_reply(&strs(&["waiting", "x", "+4"])),
        GateResult::Waiting { position: 0, total: 4 }
    );
    assert_eq!(parse_gate_reply(&strs(&["odd", "1", "2"])), GateResult::Enqueued { position: 1, total: 1 });
    assert_eq!(parse_gate_reply(&strs(&["active"])), GateResult::Enqueued { position: 1, total: 1 });
}

#[test]
fn durations() {
    assert_eq!(read_duration(&"1500".to_string()), Some(1500));
    assert_eq!(read_duration(&"1500.75".to_string()), Some(1500));
    assert_eq!(read_duration(&".5".to_string()), Some(0));
    assert_eq!(read_duration(&"7.".to_string()), Some(7));
    assert_eq!(read_duration(&"+3".to_string()), Some(3));
    assert_eq!(read_duration(&".".to_string()), None);
    assert_eq!(read_duration(&"-12.5".to_string()), Some(0));
    assert_eq!(read_duration(&"-99999999999999999999999".to_string()), Some(0));
    assert_eq!(read_duration(&"-".to_string()), None);
    assert_eq!(read_duration(&"-x".to_string()), None);
    assert_eq!(read_duration(&"+-1".to_string()), None);
    assert_eq!(read_duration(&"".to_string()), None);
    assert_eq!(read_duration(&"1.2.3".to_string()), None);
    assert_eq!(read_duration(&"abc".to_string()), None);
}

#[test]
fn stats_hash() {
    let raw = strs(&[
        "total_active_duration_ms", "9000.5",
        "completed_sessions", "3",
        "total_admitted", "12",
        "unknown", "1",
        "total_visitors", "20",
    ]);
    let f = parse_stats_reply(&raw);
    assert_eq!(
        f,
        RedisStatsFields { total_active_duration_ms: 9000, completed_sessions: 3, total_admitted: 12, total_visitors: 20 }
    );
    let s = redis_queue_stats(4, 6, &f);
    assert_eq!(
        s,
        QueueStats { active_count: 4, waiting_count: 6, avg_active_duration_millis: 3000, total_admitted: 12, total_visitors: 20 }
    );
    let p = redis_position(Some(2), 6, &f, 3).unwrap();
    assert_eq!(p, QueuePosition { position: 3, total_waiting: 6, eta_millis: 3000 });
    assert_eq!(redis_position(None, 6, &f, 3), None);
    let empty = parse_stats_reply(&Vec::new());
    assert_eq!(redis_queue_stats(0, 0, &empty).avg_active_duration_millis, 0);
    assert_eq!(redis_position(Some(0), 1, &empty, 0).unwrap().eta_millis, 300_000);
    let bad = parse_stats_reply(&strs(&["completed_sessions", "many", "total_admitted"]));
    assert_eq!(bad.completed_sessions, 0);
    assert_eq!(bad.total_admitted, 0);
}

#[test]
fn reaper_replies() {
    assert_eq!(parse_reaper_reply(&vec![3, 2]), (3, 2));
    assert_eq!(parse_reaper_reply(&vec![5]), (5, 0));
    assert_eq!(parse_reaper_reply(&Vec::new()), (0, 0));
}

#[test]
fn session_key_text() {
    let id = SessionId(0xffeeddccbbaa99887766554433221100);
    assert_eq!(session_id_str(&id), "ffeeddcc-bbaa-9988-7766-554433221100");
}

#[test]
fn wall_clock_millis() {
    let a = now_ms();
    assert!(a > 1_600_000_000_000);
    let n = utc_now_nanos();
    let b = now_ms();
    assert!(n > 1_600_000_000_000_000_000);
    assert!((n / 1_000_000) as u64 >= a);
    assert!((n / 1_000_000) as u64 <= b);
}
