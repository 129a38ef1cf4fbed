use waiting_room::waiting::waiting_page_html;
use waiting_room::text::find_text;
use waiting_room::decimal::{format_decimal, parse_unsigned};
use waiting_room::ids::{uuid_prefix8, uuid_string};
use waiting_room::text::{same_text, starts_with_text};
use waiting_room::waiting::{eta_whole_secs, format_eta, sse_update, SseUpdate};
use waiting_room::queue::QueuePosition;

#[test]
fn parse_unsigned_reads_like_std() {
    assert_eq!(parse_unsigned("0", u64::MAX), Some(0));
    assert_eq!(parse_unsigned("123", u64::MAX), Some(123));
    assert_eq!(parse_unsigned("+7", u64::MAX), Some(7));
    assert_eq!(parse_unsigned("007", u64::MAX), Some(7));
    assert_eq!(parse_unsigned("", u64::MAX), None);
    assert_eq!(parse_unsigned("+", u64::MAX), None);
    assert_eq!(parse_unsigned("-1", u64::MAX), None);
    assert_eq!(parse_unsigned(" 1", u64::MAX), None);
    assert_eq!(parse_unsigned("12a", u64::MAX), None);
    assert_eq!(parse_unsigned("4294967295", u32::MAX as u64), Some(4294967295));
    assert_eq!(parse_unsigned("4294967296", u32::MAX as u64), None);
    assert_eq!(parse_unsigned("18446744073709551615", u64::MAX), Some(u64::MAX));
    assert_eq!(parse_unsigned("18446744073709551616", u64::MAX), None);
    for n in [0u64, 9, 10, 99, 12345, u64::MAX] {
        assert_eq!(parse_unsigned(&format_decimal(n), u64::MAX), Some(n));
        assert_eq!(format_decimal(n), n.to_string());
    }
}

#[test]
fn uuid_text_shape() {
    let v: u128 = 0x0123456789abcdef0011223344556677;
    assert_eq!(uuid_string(v), "01234567-89ab-cdef-0011-223344556677");
    assert_eq!(uuid_prefix8(v), "01234567");
    assert_eq!(uuid_string(0), "00000000-0000-0000-0000-000000000000");
    let u = uuid::Uuid::from_u128(v);
    assert_eq!(uuid_string(v), u.to_string());
}

#[test]
fn text_comparisons() {
    assert!(same_text("abc", "abc"));
    assert!(!same_text("abc", "abd"));
    assert!(!same_text("abc", "ab"));
    assert!(same_text("", ""));
    assert!(starts_with_text("/__wr/x", "/__wr"));
    assert!(starts_with_text("x", ""));
    assert!(!starts_with_text("/_", "/__wr"));
}

#[test]
fn eta_texts() {
    assert_eq!(format_eta(0), "1분 미만");
    assert_eq!(format_eta(59), "1분 미만");
    assert_eq!(format_eta(60), "약 1분");
    assert_eq!(format_eta(61), "약 2분");
    assert_eq!(format_eta(3599), "약 60분");
    assert_eq!(format_eta(3600), "약 1시간 0분");
    assert_eq!(format_eta(3661), "약 1시간 2분");
    assert_eq!(format_eta(7200 + 1800), "약 2시간 30분");
}

#[test]
fn eta_seconds_from_millis() {
    assert_eq!(eta_whole_secs(0), 0);
    assert_eq!(eta_whole_secs(1_999), 1);
    assert_eq!(eta_whole_secs(300_000), 300);
    assert_eq!(eta_whole_secs(u128::MAX), u64::MAX);
}

#[test]
fn live_update_choices() {
    let p = QueuePosition { position: 2, total_waiting: 5, eta_millis: 1000 };
    assert_eq!(sse_update(true, Some(p), false, false), Some(SseUpdate::Admit));
    assert_eq!(sse_update(false, Some(p), false, false), Some(SseUpdate::Position(p)));
    assert_eq!(sse_update(false, None, false, false), Some(SseUpdate::Closed));
    assert_eq!(sse_update(false, None, false, true), None);
    assert_eq!(sse_update(false, None, true, false), None);
}

#[test]
fn fresh_session_ids_are_version_4() {
    for _ in 0..20 {
        let id = waiting_room::queue::SessionId::new();
        let text = uuid_string(id.0);
        let chars: Vec<char> = text.chars().collect();
        assert_eq!(chars[14], '4');
        assert!(matches!(chars[19], '8' | '9' | 'a' | 'b'));
        let parsed = uuid::Uuid::parse_str(&text).unwrap();
        assert_eq!(parsed.get_version_num(), 4);
    }
}

#[test]
fn text_search() {
    assert!(find_text("data: {\"action\":\"admit\"}", "\"admit\""));
    assert!(!find_text("data: {\"position\":3}", "\"admit\""));
    assert!(find_text("abc", ""));
    assert!(!find_text("", "a"));
    assert!(find_text("aaab", "aab"));
}

#[test]
fn waiting_page_rendering() {
    use_page();
}

fn use_page() {
    let page = waiting_page_html(
        "<h1>{{ page_title }}</h1><p>{{ position }}/{{ progress_pct }}/{{ eta_display }}/{{ cookie_name }}{% if logo_url %}/{{ logo_url }}{% endif %}</p>",
        "Please wait...",
        "",
        "wr_session",
        3,
        "67",
        "약 2분",
    );
    assert_eq!(page, "<h1>Please wait...</h1><p>3/67/약 2분/wr_session</p>");
    let bad = waiting_page_html("{% if %}", "t", "", "c", 0, "0", "x");
    assert!(bad.starts_with("Template error: "));
}
