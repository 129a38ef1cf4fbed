use waiting_room::admin::create_schedule;
use waiting_room::scheduler::{
    check_new_schedule, claim_key, cleanup_on_end, first_cleanup, evaluate_schedules, evaluate_schedules_at,
    find_schedule, flush_on_start, patch_active_schedule, patch_schedule_by_id, record_schedule_stats,
    remove_schedule_by_id, retention_cutoff, schedules_due_for_archive, sort_newest_first,
    stop_schedule_by_id, CreateScheduleError, CreateScheduleRequest, PatchScheduleRequest, Schedule,
    SchedulePhase, ScheduleStats, StopOutcome,
};
use waiting_room::queue::QueueStats;

const S: i128 = 1_000_000_000;

fn sched(id: &str, start: i128, end: i128, phase: SchedulePhase) -> Schedule {
    Schedule {
        id: id.to_string(),
        name: format!("sale-{}", id),
        start_at: start * S,
        end_at: end * S,
        max_active_users: Some(10),
        origin_url: Some(format!("http://{}.example", id)),
        session_ttl_secs: None,
        phase,
        stats: ScheduleStats::default(),
    }
}

fn req(start: i128, end: i128) -> CreateScheduleRequest {
    CreateScheduleRequest {
        name: "new".to_string(),
        start_at: start * S,
        end_at: end * S,
        max_active_users: Some(3),
        origin_url: None,
        session_ttl_secs: Some(60),
    }
}

#[test]
fn evaluation_activates_the_running_schedule() {
    let mut v = vec![
        sched("a", 0, 10, SchedulePhase::Active),
        sched("b", 20, 30, SchedulePhase::Pending),
        sched("c", 40, 50, SchedulePhase::Pending),
    ];
    let st = evaluate_schedules_at(&mut v, 25 * S);
    assert!(st.enabled);
    assert_eq!(st.active_schedule.as_deref(), Some("sale-b"));
    assert_eq!(st.active_schedule_id.as_deref(), Some("b"));
    assert_eq!(st.max_active_override, Some(10));
    assert_eq!(st.origin_url_override.as_deref(), Some("http://b.example"));
    assert_eq!(st.session_ttl_override, None);
    assert!(st.just_started);
    assert!(st.just_ended);
    assert_eq!(st.ended_schedule_ids, vec!["a".to_string()]);
    assert_eq!(v[0].phase, SchedulePhase::Ended);
    assert_eq!(v[1].phase, SchedulePhase::Active);
    assert_eq!(v[2].phase, SchedulePhase::Pending);

    let st2 = evaluate_schedules_at(&mut v, 26 * S);
    assert!(st2.enabled);
    assert!(!st2.just_started);
    assert!(!st2.just_ended);
}

#[test]
fn evaluation_with_nothing_running() {
    let mut v = vec![sched("a", 0, 10, SchedulePhase::Active), sched("b", 20, 30, SchedulePhase::Pending)];
    let st = evaluate_schedules_at(&mut v, 15 * S);
    assert!(!st.enabled);
    assert!(st.active_schedule.is_none());
    assert!(st.just_ended);
    assert!(!st.just_started);
    assert_eq!(v[0].phase, SchedulePhase::Ended);
    assert_eq!(v[1].phase, SchedulePhase::Pending);
    let st = evaluate_schedules_at(&mut v, 15 * S);
    assert!(!st.just_ended);
    assert_eq!(st.ended_schedule_ids, vec!["a".to_string()]);
}

#[test]
fn end_is_exclusive_start_inclusive() {
    let mut v = vec![sched("a", 10, 20, SchedulePhase::Pending)];
    assert!(evaluate_schedules_at(&mut v, 10 * S).enabled);
    assert!(!evaluate_schedules_at(&mut v, 20 * S).enabled);
    assert_eq!(v[0].phase, SchedulePhase::Ended);
}

#[test]
fn evaluation_now_on_an_empty_list() {
    let mut v: Vec<Schedule> = Vec::new();
    let st = evaluate_schedules(&mut v);
    assert!(!st.enabled);
    assert!(st.ended_schedule_ids.is_empty());
}

#[test]
fn new_schedules_are_checked() {
    let existing = vec![
        sched("a", 0, 10, SchedulePhase::Ended),
        sched("b", 20, 30, SchedulePhase::Pending),
    ];
    assert!(matches!(check_new_schedule(&req(5, 5), &existing), Err(CreateScheduleError::InvalidRange)));
    assert!(matches!(check_new_schedule(&req(6, 5), &existing), Err(CreateScheduleError::InvalidRange)));
    assert!(check_new_schedule(&req(5, 8), &existing).is_ok());
    assert!(check_new_schedule(&req(10, 20), &existing).is_ok());
    match check_new_schedule(&req(25, 35), &existing) {
        Err(CreateScheduleError::Overlap { name, id }) => {
            assert_eq!(name, "sale-b");
            assert_eq!(id, "b");
        }
        _ => panic!("expected an overlap"),
    }
}

#[test]
fn created_schedule_is_pending_with_short_id() {
    let s = create_schedule(req(100, 200), &Vec::new()).unwrap();
    assert_eq!(s.id.len(), 8);
    assert!(s.id.chars().all(|c| c.is_ascii_hexdigit() && !c.is_ascii_uppercase()));
    assert_eq!(s.name, "new");
    assert_eq!(s.start_at, 100 * S);
    assert_eq!(s.end_at, 200 * S);
    assert_eq!(s.max_active_users, Some(3));
    assert_eq!(s.session_ttl_secs, Some(60));
    assert_eq!(s.phase, SchedulePhase::Pending);
    assert_eq!(s.stats, ScheduleStats::default());
    let existing = vec![s];
    assert!(matches!(create_schedule(req(150, 250), &existing), Err(CreateScheduleError::Overlap { .. })));
}

#[test]
fn find_patch_stop_remove() {
    let mut v = vec![
        sched("a", 0, 10, SchedulePhase::Ended),
        sched("b", 20, 30, SchedulePhase::Active),
    ];
    assert_eq!(find_schedule(&v, "b"), 1);
    assert_eq!(find_schedule(&v, "zz"), 2);

    let p = PatchScheduleRequest { max_active_users: Some(99), session_ttl_secs: None, origin_url: None };
    let out = patch_schedule_by_id(&mut v, "b", &p).unwrap();
    assert_eq!(out.max_active_users, Some(99));
    assert_eq!(v[1].max_active_users, Some(99));
    assert_eq!(v[1].origin_url.as_deref(), Some("http://b.example"));
    assert!(patch_schedule_by_id(&mut v, "zz", &p).is_none());

    let p2 = PatchScheduleRequest { max_active_users: None, session_ttl_secs: Some(5), origin_url: Some("http://x".to_string()) };
    patch_active_schedule(&mut v, &p2);
    assert_eq!(v[1].session_ttl_secs, Some(5));
    assert_eq!(v[1].origin_url.as_deref(), Some("http://x"));
    assert_eq!(v[0].session_ttl_secs, None);

    assert!(matches!(stop_schedule_by_id(&mut v, "a", 25 * S), StopOutcome::AlreadyEnded));
    assert!(matches!(stop_schedule_by_id(&mut v, "zz", 25 * S), StopOutcome::NotFound));
    match stop_schedule_by_id(&mut v, "b", 25 * S) {
        StopOutcome::Stopped(s) => assert_eq!(s.end_at, 25 * S),
        _ => panic!("expected a stop"),
    }
    assert_eq!(v[1].end_at, 25 * S);

    assert!(remove_schedule_by_id(&mut v, "a"));
    assert_eq!(v.len(), 1);
    assert_eq!(v[0].id, "b");
    assert!(!remove_schedule_by_id(&mut v, "a"));
    assert_eq!(v.len(), 1);
}

#[test]
fn archive_selection_and_cutoff() {
    assert_eq!(retention_cutoff(100 * S, 30), 70 * S);
    assert_eq!(retention_cutoff(i128::MIN + 5, 1), i128::MIN);
    let v = vec![
        sched("a", 0, 10, SchedulePhase::Ended),
        sched("b", 0, 60, SchedulePhase::Ended),
        sched("c", 0, 5, SchedulePhase::Pending),
    ];
    let due = schedules_due_for_archive(&v, 50 * S);
    assert_eq!(due.len(), 1);
    assert_eq!(due[0].id, "a");
}

#[test]
fn stats_are_recorded_with_peaks() {
    let mut v = vec![sched("a", 0, 10, SchedulePhase::Active)];
    let q1 = QueueStats { active_count: 5, waiting_count: 7, avg_active_duration_millis: 0, total_admitted: 9, total_visitors: 11 };
    record_schedule_stats(&mut v, "a", &q1);
    let q2 = QueueStats { active_count: 3, waiting_count: 8, avg_active_duration_millis: 0, total_admitted: 12, total_visitors: 15 };
    record_schedule_stats(&mut v, "a", &q2);
    assert_eq!(
        v[0].stats,
        ScheduleStats { peak_active_users: 5, peak_queue_length: 8, total_admitted: 12, total_visitors: 15 }
    );
    record_schedule_stats(&mut v, "missing", &q1);
    assert_eq!(v[0].stats.peak_active_users, 5);
}

#[test]
fn newest_first_is_stable() {
    let v = vec![
        sched("a", 0, 10, SchedulePhase::Ended),
        sched("b", 0, 30, SchedulePhase::Ended),
        sched("c", 0, 10, SchedulePhase::Ended),
        sched("d", 0, 20, SchedulePhase::Ended),
    ];
    let r = sort_newest_first(v);
    let ids: Vec<&str> = r.iter().map(|s| s.id.as_str()).collect();
    assert_eq!(ids, vec!["b", "d", "a", "c"]);
}

#[test]
fn claim_keys_and_one_time_events() {
    assert_eq!(claim_key("flushed", "ab12cd34"), "wr:flushed:ab12cd34");
    let mut v = vec![sched("a", 0, 10, SchedulePhase::Pending)];
    let st = evaluate_schedules_at(&mut v, 5 * S);
    assert!(flush_on_start(&st, None));
    assert!(flush_on_start(&st, Some(true)));
    assert!(!flush_on_start(&st, Some(false)));
    assert!(!cleanup_on_end(&st, "a", Some(true)));
    let st = evaluate_schedules_at(&mut v, 15 * S);
    assert!(!flush_on_start(&st, Some(true)));
    assert!(cleanup_on_end(&st, "a", None));
    assert!(!cleanup_on_end(&st, "b", None));
    assert!(cleanup_on_end(&st, "a", Some(true)));
    assert!(!cleanup_on_end(&st, "a", Some(false)));
    let st = evaluate_schedules_at(&mut v, 16 * S);
    assert!(!cleanup_on_end(&st, "a", None));
}

#[test]
fn ended_schedules_after_the_running_one_are_marked() {
    let mut v = vec![
        sched("run", 0, 100, SchedulePhase::Active),
        sched("old", 0, 10, SchedulePhase::Pending),
    ];
    let st = evaluate_schedules_at(&mut v, 50 * S);
    assert!(st.enabled);
    assert_eq!(st.active_schedule_id.as_deref(), Some("run"));
    assert_eq!(v[1].phase, SchedulePhase::Ended);
    assert_eq!(st.ended_schedule_ids, vec!["old".to_string()]);
    assert!(!st.just_ended);
}

#[test]
fn out_of_order_schedules_hand_over() {
    let h = 3600;
    let mut v = vec![
        sched("late", 12 * h, 13 * h, SchedulePhase::Pending),
        sched("early", 11 * h, 12 * h, SchedulePhase::Pending),
    ];
    let st = evaluate_schedules_at(&mut v, 11 * h * S + 5 * S);
    assert_eq!(st.active_schedule_id.as_deref(), Some("early"));
    assert_eq!(v[1].phase, SchedulePhase::Active);
    let st = evaluate_schedules_at(&mut v, 12 * h * S);
    assert_eq!(st.active_schedule_id.as_deref(), Some("late"));
    assert_eq!(v[1].phase, SchedulePhase::Ended);
    assert_eq!(v[0].phase, SchedulePhase::Active);
    assert!(st.just_started);
    assert!(st.just_ended);
    assert_eq!(st.ended_schedule_ids, vec!["early".to_string()]);
    assert_eq!(st.just_ended_ids, vec!["early".to_string()]);
}

#[test]
fn one_cleanup_for_the_schedule_that_just_ended() {
    let mut v = vec![
        sched("old", 0, 5, SchedulePhase::Ended),
        sched("now", 0, 10, SchedulePhase::Active),
    ];
    let st = evaluate_schedules_at(&mut v, 20 * S);
    assert_eq!(st.ended_schedule_ids, vec!["old".to_string(), "now".to_string()]);
    assert_eq!(st.just_ended_ids, vec!["now".to_string()]);
    assert_eq!(first_cleanup(&st, &vec![None]), None);
    assert_eq!(first_cleanup(&st, &vec![None, None]), Some(1));
    assert_eq!(first_cleanup(&st, &vec![Some(false), Some(true)]), Some(1));
    assert_eq!(first_cleanup(&st, &vec![Some(true), Some(true)]), Some(0));
    assert_eq!(first_cleanup(&st, &vec![Some(false), Some(false)]), None);
}
