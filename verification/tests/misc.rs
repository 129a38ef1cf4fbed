use waiting_room::load_test::LoadEvent;
use waiting_room::conn_test::ConnFailure;
use waiting_room::scheduler::{archive_sweep_due, stats_save_due, ScheduleState};
use waiting_room::reaper::reaper_runs;
use waiting_room::conn_test::accepts_first_status;
use waiting_room::load_test::{first_step, sse_end, token_from_set_cookies, FirstStep, SseEnd};
use waiting_room::clock::{millis_of_epoch_nanos, secs_of_epoch_nanos, signed_epoch_nanos};
use waiting_room::conn_test::Counters as ConnCounters;
use waiting_room::load_test::Counters as LoadCounters;
use waiting_room::state::{enabled_flag_text, generate_hmac_secret, parse_enabled_flag};

#[test]
fn enabled_flag_reads_back() {
    assert_eq!(enabled_flag_text(true), "1");
    assert_eq!(enabled_flag_text(false), "0");
    assert!(parse_enabled_flag(Some(enabled_flag_text(true))));
    assert!(!parse_enabled_flag(Some(enabled_flag_text(false))));
    assert!(!parse_enabled_flag(None));
    assert!(!parse_enabled_flag(Some("true")));
}

#[test]
fn secrets_are_32_random_bytes() {
    let a = generate_hmac_secret();
    let b = generate_hmac_secret();
    assert_eq!(a.len(), 32);
    assert_eq!(b.len(), 32);
    assert_ne!(a, b);
}

#[test]
fn clock_conversions() {
    assert_eq!(millis_of_epoch_nanos(Some(1_234_567_890)), 1_234);
    assert_eq!(secs_of_epoch_nanos(Some(5_999_999_999)), 5);
    assert_eq!(millis_of_epoch_nanos(None), 0);
    assert_eq!(secs_of_epoch_nanos(None), 0);
    assert_eq!(signed_epoch_nanos(Some(2_000_000_005)), 2_000_000_005);
    assert_eq!(signed_epoch_nanos(None), 0);
    assert_eq!(signed_epoch_nanos(Some(u128::MAX)), i128::MAX);
}

#[test]
fn connection_counters() {
    let mut c = ConnCounters::new();
    assert_eq!(c.peak, 0);
    c.connected = 4;
    c.update_peak();
    assert_eq!(c.peak, 4);
    c.connected = 2;
    c.update_peak();
    assert_eq!(c.peak, 4);
}

#[test]
fn load_counters() {
    let mut c = LoadCounters::new();
    assert_eq!(c.total(), 0);
    c.admitted_direct = 3;
    c.admitted_sse = 2;
    c.closed = 1;
    c.timeout = 4;
    c.error = 5;
    c.get_count = 100;
    assert_eq!(c.total(), 15);
}

#[test]
fn load_test_reading_of_responses() {
    assert_eq!(first_step(302), FirstStep::AdmittedDirect);
    assert_eq!(first_step(200), FirstStep::Waiting);
    assert_eq!(first_step(500), FirstStep::Failed);
    let values = vec![
        "other=1; Path=/".to_string(),
        "__wr_token=abc.def; Path=/; HttpOnly".to_string(),
        "__wr_token=second".to_string(),
    ];
    assert_eq!(token_from_set_cookies(&values), Some("abc.def".to_string()));
    assert_eq!(token_from_set_cookies(&vec!["__wr_token=".to_string()]), Some(String::new()));
    assert_eq!(token_from_set_cookies(&vec!["x=1".to_string()]), None);
    assert_eq!(token_from_set_cookies(&Vec::new()), None);
    assert_eq!(sse_end("data: {\"action\":\"closed\"}\n\n"), Some(SseEnd::Closed));
    assert_eq!(sse_end("data: {\"action\":\"admit\"} \"closed\""), Some(SseEnd::Admitted));
    assert_eq!(sse_end("data: {\"position\":4}"), None);
}

#[test]
fn connection_test_bookkeeping() {
    assert!(accepts_first_status(200));
    assert!(accepts_first_status(302));
    assert!(!accepts_first_status(404));
    let mut c = ConnCounters::new();
    c.record_open();
    c.record_open();
    assert_eq!((c.connected, c.total_opened, c.peak), (2, 2, 2));
    c.record_close();
    c.record_open();
    assert_eq!((c.connected, c.total_opened, c.peak), (2, 3, 2));
    c.record_close();
    c.record_close();
    c.record_close();
    assert_eq!(c.connected, u64::MAX);
}

#[test]
fn scheduler_and_reaper_timing() {
    assert!(reaper_runs(true, None));
    assert!(reaper_runs(true, Some(true)));
    assert!(!reaper_runs(true, Some(false)));
    assert!(!reaper_runs(false, None));
    assert!(archive_sweep_due(60));
    assert!(archive_sweep_due(0));
    assert!(!archive_sweep_due(59));
    let mut st = ScheduleState {
        enabled: true,
        max_active_override: None,
        origin_url_override: None,
        session_ttl_override: None,
        active_schedule: Some("s".to_string()),
        active_schedule_id: Some("id".to_string()),
        just_started: false,
        just_ended: false,
        ended_schedule_ids: Vec::new(),
        just_ended_ids: Vec::new(),
    };
    assert!(stats_save_due(&st, 20));
    assert!(!stats_save_due(&st, 21));
    st.active_schedule_id = None;
    assert!(!stats_save_due(&st, 20));
}

#[test]
fn load_test_counting() {
    let mut c = LoadCounters::new();
    c.record(LoadEvent::Get);
    c.record(LoadEvent::Get);
    c.record(LoadEvent::Sse);
    c.record(LoadEvent::AdmittedSse);
    c.record(LoadEvent::Timeout);
    c.record(LoadEvent::Error);
    assert_eq!((c.get_count, c.sse_count, c.admitted_sse, c.timeout, c.error), (2, 1, 1, 1, 1));
    assert_eq!((c.admitted_direct, c.closed), (0, 0));
    assert_eq!(c.total(), 3);
    c.get_count = u64::MAX;
    c.record(LoadEvent::Get);
    assert_eq!(c.get_count, 0);
}

#[test]
fn connection_failures_are_counted_apart() {
    let mut c = ConnCounters::new();
    c.record_failure(ConnFailure::Connect);
    c.record_failure(ConnFailure::Sse);
    c.record_failure(ConnFailure::Sse);
    c.record_failure(ConnFailure::Dropped);
    assert_eq!((c.connect_err, c.sse_err, c.dropped, c.connected, c.total_opened), (1, 2, 1, 0, 0));
}
