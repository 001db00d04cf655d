//! Destination configuration: sink type, feature toggles and transport
//! credentials, plus the start-up validation rules.

use vstd::prelude::*;

verus! {

/// Kind of notification sink a destination delivers to.
#[derive(Clone, Copy, PartialEq, Eq, Structural, Debug)]
pub enum ModuleType {
    Email,
    Gotify,
    Discord,
}

/// Name of a module type as used in table names and logs.
pub open spec fn spec_module_type_name(t: ModuleType) -> Seq<char> {
    match t {
        ModuleType::Email => "Email"@,
        ModuleType::Gotify => "Gotify"@,
        ModuleType::Discord => "Discord"@,
    }
}

impl ModuleType {
    /// The module type's display name.
    pub fn to_string(&self) -> (r: String)
        ensures
            r@ == spec_module_type_name(*self),
    {
        match self {
            ModuleType::Email => String::from_str("Email"),
            ModuleType::Gotify => String::from_str("Gotify"),
            ModuleType::Discord => String::from_str("Discord"),
        }
    }
}

/// One configured delivery destination with its own diff baseline.
#[derive(Debug, Clone)]
pub struct ModuleConfig {
    pub module_type: ModuleType,
    pub active: bool,
    pub feeds: Option<Vec<String>>,
    pub comments: Option<bool>,
    pub uploads: Option<bool>,
    pub retrieve_all_pages: Option<bool>,
    pub smtp_username: Option<String>,
    pub smtp_password: Option<String>,
    pub smtp_domain: Option<String>,
    pub smtp_port: Option<u32>,
    pub smtp_subject: Option<String>,
    pub smtp_recipients: Option<Vec<String>>,
    pub gotify_domain: Option<String>,
    pub gotify_token: Option<String>,
    pub gotify_comment_priority: Option<u32>,
    pub gotify_upload_priority: Option<u32>,
    pub discord_token: Option<String>,
    pub discord_bot_id: Option<String>,
    pub discord_channel_id: Option<u64>,
    pub discord_pinged_role: Option<u64>,
    pub discord_bot_activity_type: Option<String>,
    pub discord_bot_activity_text: Option<String>,
}

/// The feature toggles a poll cycle reads are all present.
pub open spec fn wf_module(m: ModuleConfig) -> bool {
    &&& m.feeds is Some
    &&& m.comments is Some
    &&& m.uploads is Some
    &&& m.retrieve_all_pages is Some
}

/// Whether the destination wants comment notifications.
pub open spec fn comments_enabled(m: ModuleConfig) -> bool {
    m.comments == Some(true)
}

/// Whether the destination wants upload notifications.
pub open spec fn uploads_enabled(m: ModuleConfig) -> bool {
    m.uploads == Some(true)
}

/// Top-level configuration loaded once at startup.
#[derive(Debug, Clone)]
pub struct Config {
    pub update_interval: u64,
    pub module: Vec<ModuleConfig>,
}

/// Why a configuration was rejected at startup.
#[derive(Clone, Copy, PartialEq, Eq, Structural, Debug)]
pub enum ConfigError {
    /// No module is switched on; the service would do nothing.
    NoActiveModules,
    /// More than one Discord module is active; the gateway client allows
    /// a single connection per process.
    MultipleDiscordModules,
}

/// No module of the list is active.
pub open spec fn all_inactive(ms: Seq<ModuleConfig>) -> bool {
    forall|i: int| 0 <= i < ms.len() ==> !(#[trigger] ms[i]).active
}

/// Number of active Discord modules among the first `n`.
pub open spec fn active_discord_count(ms: Seq<ModuleConfig>, n: int) -> int
    decreases n,
{
    if n <= 0 {
        0
    } else {
        active_discord_count(ms, n - 1) + if ms[n - 1].active && ms[n - 1].module_type
            is Discord {
            1int
        } else {
            0int
        }
    }
}

impl Config {
    /// Startup validation: at least one module must be active, and at most
    /// one active module may target Discord.
    pub fn validate(&self) -> (r: Result<(), ConfigError>)
        ensures
            r == Err::<(), ConfigError>(ConfigError::NoActiveModules) <==> all_inactive(
                self.module@,
            ),
            r == Err::<(), ConfigError>(ConfigError::MultipleDiscordModules) <==> (!all_inactive(
                self.module@,
            ) && active_discord_count(self.module@, self.module@.len() as int) > 1),
            r is Ok <==> (!all_inactive(self.module@) && active_discord_count(
                self.module@,
                self.module@.len() as int,
            ) <= 1),
    {
        let mut any_active = false;
        let mut discord_active: u64 = 0;
        let mut i: usize = 0;
        while i < self.module.len()
            invariant
                i <= self.module.len(),
                any_active <==> exists|j: int| 0 <= j < i && (#[trigger] self.module@[j]).active,
                discord_active == active_discord_count(self.module@, i as int),
                discord_active <= i,
            decreases self.module.len() - i,
        {
            if self.module[i].active {
                any_active = true;
                if matches!(self.module[i].module_type, ModuleType::Discord) {
                    discord_active += 1;
                }
            }
            i += 1;
        }
        if !any_active {
            Err(ConfigError::NoActiveModules)
        } else if discord_active > 1 {
            Err(ConfigError::MultipleDiscordModules)
        } else {
            Ok(())
        }
    }
}

} // verus!
