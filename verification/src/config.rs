//! Configuration of the core: behaviour, upstream and accounts.

use vstd::prelude::*;

verus! {

/// How requests are paced, so that accounts are used at a human rhythm.
#[derive(Debug)]
pub struct BehaviorConfig {
    /// The range, in milliseconds, of the random delay before a request.
    pub request_jitter_ms: (u64, u64),
    /// How many requests an account may serve in a day; an account that has served as many
    /// is not selected again that day.
    pub daily_request_limit: u32,
    /// The range, in milliseconds, of the random delay after a proof of work.
    pub pow_delay_ms: (u64, u64),
    /// Whether sessions are kept.
    pub persist_sessions: bool,
    /// Whether the health checks at start-up are skipped.
    pub skip_startup_health_check: bool,
}

impl Clone for BehaviorConfig {
    fn clone(&self) -> (r: Self)
        ensures
            r == *self,
    {
        BehaviorConfig {
            request_jitter_ms: (self.request_jitter_ms.0, self.request_jitter_ms.1),
            daily_request_limit: self.daily_request_limit,
            pow_delay_ms: (self.pow_delay_ms.0, self.pow_delay_ms.1),
            persist_sessions: self.persist_sessions,
            skip_startup_health_check: self.skip_startup_health_check,
        }
    }
}

impl Default for BehaviorConfig {
    fn default() -> (r: Self)
        ensures
            r.request_jitter_ms == (2000u64, 8000u64),
            r.daily_request_limit == 20,
            r.pow_delay_ms == (200u64, 800u64),
            r.persist_sessions,
            r.skip_startup_health_check,
    {
        BehaviorConfig {
            request_jitter_ms: (2000, 8000),
            daily_request_limit: 20,
            pow_delay_ms: (200, 800),
            persist_sessions: true,
            skip_startup_health_check: true,
        }
    }
}

/// What the core needs to know.
#[derive(Debug, Clone)]
pub struct DsCoreConfig {
    pub api_base: String,
    pub wasm_url: String,
    pub user_agent: String,
    pub client_version: String,
    pub client_platform: String,
    pub client_locale: String,
    pub proxy_url: Option<String>,
    pub model_types: Vec<String>,
    pub input_character_limits: Vec<u32>,
    pub behavior: BehaviorConfig,
}

/// The credentials of an account.
#[derive(Debug)]
pub struct AccountConfig {
    pub email: String,
    pub mobile: String,
    pub area_code: String,
    pub password: String,
}

impl Clone for AccountConfig {
    fn clone(&self) -> (r: Self)
        ensures
            r == *self,
    {
        AccountConfig {
            email: self.email.clone(),
            mobile: self.mobile.clone(),
            area_code: self.area_code.clone(),
            password: self.password.clone(),
        }
    }
}

/// Tool names that are recognised besides those of the request.
#[derive(Debug, Clone)]
pub struct ToolCallTagConfig {
    pub extra_tool_names: Vec<String>,
}

} // verus!
