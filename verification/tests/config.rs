use waiting_room::admin::{api_key_matches, patch_config};
use waiting_room::config::{
    default_page_title, default_reaper_interval, default_schedule_retention, AdvancedConfig,
    BrandingConfig, Config, ConfigError, EnvOverrides, PatchConfigRequest,
};
use waiting_room::scheduler::{Schedule, SchedulePhase, ScheduleState, ScheduleStats};

fn base() -> Config {
    Config {
        listen_addr: "0.0.0.0:8080".to_string(),
        origin_url: "http://localhost:3000".to_string(),
        max_active_users: 100,
        session_ttl_secs: 300,
        queue_cookie_name: "wr_session".to_string(),
        admin_api_key: "secret".to_string(),
        enabled: true,
        redis_url: String::new(),
        branding: BrandingConfig::default(),
        advanced: AdvancedConfig::default(),
    }
}

fn no_env() -> EnvOverrides {
    EnvOverrides {
        listen_addr: None,
        origin_url: None,
        max_active_users: None,
        session_ttl_secs: None,
        admin_api_key: None,
        enabled: None,
        redis_url: None,
    }
}

#[test]
fn defaults() {
    assert_eq!(default_page_title(), "Please wait...");
    assert_eq!(default_reaper_interval(), 1);
    assert_eq!(default_schedule_retention(), 86400);
    let b = BrandingConfig::default();
    assert_eq!(b.page_title, "Please wait...");
    assert_eq!(b.logo_url, "");
    assert_eq!(AdvancedConfig::default(), AdvancedConfig { reaper_interval_secs: 1, schedule_retention_secs: 86400 });
}

#[test]
fn overrides_apply() {
    let mut c = base();
    let env = EnvOverrides {
        listen_addr: Some("127.0.0.1:9000".to_string()),
        origin_url: Some("http://shop".to_string()),
        max_active_users: Some("250".to_string()),
        session_ttl_secs: Some("60".to_string()),
        admin_api_key: Some("k2".to_string()),
        enabled: Some("false".to_string()),
        redis_url: Some("redis://r:6379".to_string()),
    };
    assert_eq!(c.apply_overrides(&env), Ok(()));
    assert_eq!(c.listen_addr, "127.0.0.1:9000");
    assert_eq!(c.origin_url, "http://shop");
    assert_eq!(c.max_active_users, 250);
    assert_eq!(c.session_ttl_secs, 60);
    assert_eq!(c.admin_api_key, "k2");
    assert!(!c.enabled);
    assert_eq!(c.redis_url, "redis://r:6379");
    assert_eq!(c.queue_cookie_name, "wr_session");
}

#[test]
fn no_overrides_change_nothing() {
    let mut c = base();
    assert_eq!(c.apply_overrides(&no_env()), Ok(()));
    assert_eq!(c.max_active_users, 100);
    assert!(c.enabled);
}

#[test]
fn bad_overrides_are_refused() {
    let mut env = no_env();
    env.max_active_users = Some("lots".to_string());
    assert_eq!(base().apply_overrides(&env), Err(ConfigError::InvalidMaxActiveUsers));
    env.max_active_users = Some("4294967296".to_string());
    assert_eq!(base().apply_overrides(&env), Err(ConfigError::InvalidMaxActiveUsers));
    env.max_active_users = None;
    env.session_ttl_secs = Some("-1".to_string());
    assert_eq!(base().apply_overrides(&env), Err(ConfigError::InvalidSessionTtl));
    env.session_ttl_secs = None;
    env.enabled = Some("yes".to_string());
    assert_eq!(base().apply_overrides(&env), Err(ConfigError::InvalidEnabled));
    env.enabled = Some("TRUE".to_string());
    assert_eq!(base().apply_overrides(&env), Err(ConfigError::InvalidEnabled));
    env.max_active_users = Some("x".to_string());
    assert_eq!(base().apply_overrides(&env), Err(ConfigError::InvalidMaxActiveUsers));
}

#[test]
fn patch_changes_given_fields() {
    let mut c = base();
    c.apply_patch(&PatchConfigRequest { max_active_users: Some(5), session_ttl_secs: None, origin_url: None });
    assert_eq!(c.max_active_users, 5);
    assert_eq!(c.session_ttl_secs, 300);
    assert_eq!(c.origin_url, "http://localhost:3000");
}

#[test]
fn schedule_state_overrides() {
    let mut c = base();
    let st = ScheduleState {
        enabled: true,
        max_active_override: Some(7),
        origin_url_override: None,
        session_ttl_override: Some(30),
        active_schedule: Some("sale".to_string()),
        active_schedule_id: Some("abcd1234".to_string()),
        just_started: true,
        just_ended: false,
        ended_schedule_ids: Vec::new(),
        just_ended_ids: Vec::new(),
    };
    assert!(c.apply_schedule_state(&st));
    assert_eq!(c.max_active_users, 7);
    assert_eq!(c.session_ttl_secs, 30);
    assert_eq!(c.origin_url, "http://localhost:3000");

    let mut c2 = base();
    let idle = ScheduleState {
        enabled: false,
        max_active_override: None,
        origin_url_override: None,
        session_ttl_override: None,
        active_schedule: None,
        active_schedule_id: None,
        just_started: false,
        just_ended: true,
        ended_schedule_ids: Vec::new(),
        just_ended_ids: Vec::new(),
    };
    assert!(!c2.apply_schedule_state(&idle));
    assert_eq!(c2.max_active_users, 100);
}

#[test]
fn admin_patch_reaches_the_active_schedule() {
    let mut c = base();
    let mut v = vec![
        Schedule {
            id: "a".to_string(),
            name: "x".to_string(),
            start_at: 0,
            end_at: 10,
            max_active_users: None,
            origin_url: None,
            session_ttl_secs: None,
            phase: SchedulePhase::Pending,
            stats: ScheduleStats::default(),
        },
        Schedule {
            id: "b".to_string(),
            name: "y".to_string(),
            start_at: 0,
            end_at: 10,
            max_active_users: None,
            origin_url: None,
            session_ttl_secs: None,
            phase: SchedulePhase::Active,
            stats: ScheduleStats::default(),
        },
    ];
    let p = PatchConfigRequest { max_active_users: Some(42), session_ttl_secs: None, origin_url: Some("http://new".to_string()) };
    patch_config(&mut c, &mut v, &p);
    assert_eq!(c.max_active_users, 42);
    assert_eq!(c.origin_url, "http://new");
    assert_eq!(v[1].max_active_users, Some(42));
    assert_eq!(v[1].origin_url.as_deref(), Some("http://new"));
    assert_eq!(v[0].max_active_users, None);
}

#[test]
fn api_key_checks() {
    assert!(api_key_matches(Some("secret"), "secret"));
    assert!(!api_key_matches(Some("Secret"), "secret"));
    assert!(!api_key_matches(None, "secret"));
    assert!(api_key_matches(None, ""));
    assert!(api_key_matches(Some(""), ""));
}
