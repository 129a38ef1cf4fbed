use vstd::prelude::*;
use crate::decimal::{parse_unsigned, unsigned_reading};
use crate::scheduler::ScheduleState;
use crate::text::{copy_opt_string, copy_string, same_text};

verus! {

/// How the waiting page is branded.
#[derive(Debug)]
pub struct BrandingConfig {
    pub page_title: String,
    pub logo_url: String,
}

/// The default page title, "Please wait...".
pub fn default_page_title() -> (s: String)
    ensures
        s@ == "Please wait..."@,
{
    String::from_str("Please wait...")
}

impl Default for BrandingConfig {
    fn default() -> (b: Self)
        ensures
            b.page_title@ == "Please wait..."@,
            b.logo_url@ == Seq::<char>::empty(),
    {
        BrandingConfig { page_title: default_page_title(), logo_url: String::new() }
    }
}

/// Settings of background work.
#[derive(Debug, Clone, Copy, PartialEq, Eq, Structural)]
pub struct AdvancedConfig {
    /// Seconds between reaper cycles.
    pub reaper_interval_secs: u64,
    /// Seconds an ended schedule is kept before it is archived.
    pub schedule_retention_secs: u64,
}

/// The default reaper interval, 1 second.
pub fn default_reaper_interval() -> (s: u64)
    ensures
        s == 1,
{
    1
}

/// The default retention of ended schedules, 24 hours.
pub fn default_schedule_retention() -> (s: u64)
    ensures
        s == 86400,
{
    86400
}

impl Default for AdvancedConfig {
    fn default() -> (a: Self)
        ensures
            a == (AdvancedConfig { reaper_interval_secs: 1, schedule_retention_secs: 86400 }),
    {
        AdvancedConfig {
            reaper_interval_secs: default_reaper_interval(),
            schedule_retention_secs: default_schedule_retention(),
        }
    }
}

/// The server's settings. `listen_addr` holds the socket address text as
/// configured.
#[derive(Debug)]
pub struct Config {
    pub listen_addr: String,
    pub origin_url: String,
    pub max_active_users: u32,
    pub session_ttl_secs: u64,
    pub queue_cookie_name: String,
    pub admin_api_key: String,
    pub enabled: bool,
    pub redis_url: String,
    pub branding: BrandingConfig,
    pub advanced: AdvancedConfig,
}

/// Values read from the environment that override the configuration file
/// (`WR_LISTEN_ADDR`, `WR_ORIGIN_URL`, `WR_MAX_ACTIVE_USERS`,
/// `WR_SESSION_TTL_SECS`, `WR_ADMIN_API_KEY`, `WR_ENABLED`, `WR_REDIS_URL`).
#[derive(Debug)]
pub struct EnvOverrides {
    pub listen_addr: Option<String>,
    pub origin_url: Option<String>,
    pub max_active_users: Option<String>,
    pub session_ttl_secs: Option<String>,
    pub admin_api_key: Option<String>,
    pub enabled: Option<String>,
    pub redis_url: Option<String>,
}

/// An override that does not read as its setting's type.
#[derive(Debug, Clone, Copy, PartialEq, Eq, Structural)]
pub enum ConfigError {
    InvalidMaxActiveUsers,
    InvalidSessionTtl,
    InvalidEnabled,
}

/// How a boolean setting reads `s`: exactly `true` or `false`.
pub open spec fn bool_reading(s: Seq<char>) -> Option<bool> {
    if s == "true"@ {
        Some(true)
    } else if s == "false"@ {
        Some(false)
    } else {
        None
    }
}

/// The first override, in the order the settings are applied, that does not
/// read as its type.
pub open spec fn override_error(env: EnvOverrides) -> Option<ConfigError> {
    if env.max_active_users is Some && unsigned_reading(env.max_active_users->0@, u32::MAX as int) is None {
        Some(ConfigError::InvalidMaxActiveUsers)
    } else if env.session_ttl_secs is Some && unsigned_reading(env.session_ttl_secs->0@, u64::MAX as int) is None {
        Some(ConfigError::InvalidSessionTtl)
    } else if env.enabled is Some && bool_reading(env.enabled->0@) is None {
        Some(ConfigError::InvalidEnabled)
    } else {
        None
    }
}

/// `c` with every override of `env` applied (all of them readable).
pub open spec fn overridden(c: Config, env: EnvOverrides) -> Config {
    Config {
        listen_addr: if env.listen_addr is Some { env.listen_addr->0 } else { c.listen_addr },
        origin_url: if env.origin_url is Some { env.origin_url->0 } else { c.origin_url },
        max_active_users: if env.max_active_users is Some {
            unsigned_reading(env.max_active_users->0@, u32::MAX as int)->0 as u32
        } else {
            c.max_active_users
        },
        session_ttl_secs: if env.session_ttl_secs is Some {
            unsigned_reading(env.session_ttl_secs->0@, u64::MAX as int)->0 as u64
        } else {
            c.session_ttl_secs
        },
        admin_api_key: if env.admin_api_key is Some { env.admin_api_key->0 } else { c.admin_api_key },
        enabled: if env.enabled is Some { bool_reading(env.enabled->0@)->0 } else { c.enabled },
        redis_url: if env.redis_url is Some { env.redis_url->0 } else { c.redis_url },
        ..c
    }
}

/// A change of the running settings; absent fields are left as they are.
#[derive(Debug)]
pub struct PatchConfigRequest {
    pub max_active_users: Option<u32>,
    pub session_ttl_secs: Option<u64>,
    pub origin_url: Option<String>,
}

/// `c` with the settings given in `p` replaced.
pub open spec fn config_patched(c: Config, p: PatchConfigRequest) -> Config {
    Config {
        max_active_users: if p.max_active_users is Some { p.max_active_users->0 } else { c.max_active_users },
        session_ttl_secs: if p.session_ttl_secs is Some { p.session_ttl_secs->0 } else { c.session_ttl_secs },
        origin_url: if p.origin_url is Some { p.origin_url->0 } else { c.origin_url },
        ..c
    }
}

/// `c` with the overrides of the running schedule reported in `st` applied.
pub open spec fn config_for_schedule(c: Config, st: ScheduleState) -> Config {
    if st.active_schedule is Some {
        Config {
            max_active_users: if st.max_active_override is Some { st.max_active_override->0 } else { c.max_active_users },
            origin_url: if st.origin_url_override is Some { st.origin_url_override->0 } else { c.origin_url },
            session_ttl_secs: if st.session_ttl_override is Some { st.session_ttl_override->0 } else { c.session_ttl_secs },
            ..c
        }
    } else {
        c
    }
}

impl Config {
    /// Applies the environment overrides. When one of them does not read as
    /// its setting's type (looked at in the order capacity, session
    /// lifetime, enabled), that is the error and nothing changes.
    pub fn apply_overrides(&mut self, env: &EnvOverrides) -> (r: Result<(), ConfigError>)
        ensures
            match r {
                Ok(()) => override_error(*env) is None && *final(self) == overridden(*old(self), *env),
                Err(e) => override_error(*env) == Some(e) && *final(self) == *old(self),
            },
    {
        let max_active: Option<u32> = match &env.max_active_users {
            Some(v) => match parse_unsigned(v.as_str(), u32::MAX as u64) {
                Some(n) => Some(n as u32),
                None => {
                    return Err(ConfigError::InvalidMaxActiveUsers);
                },
            },
            None => None,
        };
        let ttl: Option<u64> = match &env.session_ttl_secs {
            Some(v) => match parse_unsigned(v.as_str(), u64::MAX) {
                Some(n) => Some(n),
                None => {
                    return Err(ConfigError::InvalidSessionTtl);
                },
            },
            None => None,
        };
        let enabled: Option<bool> = match &env.enabled {
            Some(v) => {
                if same_text(v.as_str(), "true") {
                    Some(true)
                } else if same_text(v.as_str(), "false") {
                    Some(false)
                } else {
                    return Err(ConfigError::InvalidEnabled);
                }
            },
            None => None,
        };
        match &env.listen_addr {
            Some(v) => {
                self.listen_addr = copy_string(v);
            },
            None => {},
        }
        match &env.origin_url {
            Some(v) => {
                self.origin_url = copy_string(v);
            },
            None => {},
        }
        match max_active {
            Some(n) => {
                self.max_active_users = n;
            },
            None => {},
        }
        match ttl {
            Some(n) => {
                self.session_ttl_secs = n;
            },
            None => {},
        }
        match &env.admin_api_key {
            Some(v) => {
                self.admin_api_key = copy_string(v);
            },
            None => {},
        }
        match enabled {
            Some(b) => {
                self.enabled = b;
            },
            None => {},
        }
        match &env.redis_url {
            Some(v) => {
                self.redis_url = copy_string(v);
            },
            None => {},
        }
        Ok(())
    }

    /// Replaces the settings given in `p`.
    pub fn apply_patch(&mut self, p: &PatchConfigRequest)
        ensures
            *final(self) == config_patched(*old(self), *p),
    {
        match p.max_active_users {
            Some(v) => {
                self.max_active_users = v;
            },
            None => {},
        }
        match p.session_ttl_secs {
            Some(v) => {
                self.session_ttl_secs = v;
            },
            None => {},
        }
        match &p.origin_url {
            Some(v) => {
                self.origin_url = copy_string(v);
            },
            None => {},
        }
    }

    /// Applies the overrides of the running schedule reported in `st`;
    /// returns whether the waiting room should be on (a schedule runs).
    pub fn apply_schedule_state(&mut self, st: &ScheduleState) -> (on: bool)
        ensures
            on == st.active_schedule is Some,
            *final(self) == config_for_schedule(*old(self), *st),
    {
        if st.active_schedule.is_some() {
            match st.max_active_override {
                Some(v) => {
                    self.max_active_users = v;
                },
                None => {},
            }
            match &st.origin_url_override {
                Some(v) => {
                    self.origin_url = copy_string(v);
                },
                None => {},
            }
            match st.session_ttl_override {
                Some(v) => {
                    self.session_ttl_secs = v;
                },
                None => {},
            }
            true
        } else {
            false
        }
    }
}

/// The schedule change that carries the same settings as a change of the
/// running settings.
pub fn schedule_patch_of(p: &PatchConfigRequest) -> (q: crate::scheduler::PatchScheduleRequest)
    ensures
        q.max_active_users == p.max_active_users,
        q.session_ttl_secs == p.session_ttl_secs,
        q.origin_url == p.origin_url,
{
    crate::scheduler::PatchScheduleRequest {
        max_active_users: p.max_active_users,
        session_ttl_secs: p.session_ttl_secs,
        origin_url: copy_opt_string(&p.origin_url),
    }
}

} // verus!

verus! {

/// Applying what the schedules report: while a schedule runs, each override
/// it carries becomes the live setting (the origin traffic goes to, the
/// capacity, the session lifetime) and a setting it does not override keeps
/// its value; while none runs, the settings are left as they are. Nothing
/// else changes.
pub proof fn lemma_schedule_overrides_take_effect(c: Config, st: ScheduleState)
    ensures
        ({
            let c2 = config_for_schedule(c, st);
            &&& st.active_schedule is Some && st.origin_url_override is Some ==> c2.origin_url == st.origin_url_override->0
            &&& st.active_schedule is Some && st.max_active_override is Some ==> c2.max_active_users == st.max_active_override->0
            &&& st.active_schedule is Some && st.session_ttl_override is Some ==> c2.session_ttl_secs == st.session_ttl_override->0
            &&& (st.active_schedule is None || st.origin_url_override is None) ==> c2.origin_url == c.origin_url
            &&& (st.active_schedule is None || st.max_active_override is None) ==> c2.max_active_users == c.max_active_users
            &&& (st.active_schedule is None || st.session_ttl_override is None) ==> c2.session_ttl_secs == c.session_ttl_secs
            &&& c2.listen_addr == c.listen_addr
            &&& c2.queue_cookie_name == c.queue_cookie_name
            &&& c2.admin_api_key == c.admin_api_key
            &&& c2.enabled == c.enabled
            &&& c2.redis_url == c.redis_url
            &&& c2.branding == c.branding
            &&& c2.advanced == c.advanced
        }),
{
}

} // verus!
