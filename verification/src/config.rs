//! Configuration: automation policy, notification defaults and lifecycle tuning, with the
//! defaults that apply to whatever the configuration file leaves out or gets wrong.

use vstd::prelude::*;

use crate::model::{duration_parse, DurationSpec, Lead};
use crate::text::{chars_of, push_str, string_of};

verus! {

/// Why the configuration file could not be read: its path, and the reader's or parser's message.
#[derive(Debug, Clone, PartialEq, Eq)]
pub enum ConfigError {
    Io { path: String, message: String },
    Parse { path: String, message: String },
}

pub open spec fn config_error_text(e: ConfigError) -> Seq<char> {
    match e {
        ConfigError::Io { path, message } => "config I/O error at `"@ + path@ + "`: "@ + message@,
        ConfigError::Parse { path, message } => "config parse error at `"@ + path@ + "`: "@ + message@,
    }
}

fn at_path(prefix: &str, path: &String, message: &String) -> (r: String)
    ensures
        r@ == prefix@ + path@ + "`: "@ + message@,
{
    let mut out = chars_of(prefix);
    push_str(&mut out, path.as_str());
    push_str(&mut out, "`: ");
    push_str(&mut out, message.as_str());
    string_of(out.as_slice())
}

impl ConfigError {
    /// The message shown for the error, e.g. ``config parse error at `/c.toml`: …``.
    pub fn message(&self) -> (r: String)
        ensures
            r@ == config_error_text(*self),
    {
        match self {
            ConfigError::Io { path, message } => at_path("config I/O error at `", path, message),
            ConfigError::Parse { path, message } => at_path("config parse error at `", path, message),
        }
    }
}

/// The planner's configuration.
#[derive(Debug, Clone, PartialEq, Eq)]
pub struct Config {
    pub automation: AutomationConfig,
    pub notify: NotifyConfig,
    pub grace: DurationSpec,
}

/// Automation policy: whether commands may run, which executables are allowed, and for how long.
#[derive(Debug, Clone, PartialEq, Eq)]
pub struct AutomationConfig {
    pub enabled: bool,
    pub allowed_executables: Vec<String>,
    pub timeout: DurationSpec,
}

/// Notification defaults.
#[derive(Debug, Clone, Copy, PartialEq, Eq)]
pub struct NotifyConfig {
    pub default_lead: Lead,
}

/// The grace a late trigger still acts within: 90 seconds.
pub fn default_grace() -> (r: DurationSpec)
    ensures
        r.spec_seconds() == 90,
{
    match DurationSpec::from_seconds_const(90) {
        Some(d) => d,
        None => {
            proof {
                assert(false);
            }
            DurationSpec::from_seconds_const(90).unwrap()
        },
    }
}

/// How long a command may run: five minutes.
pub fn default_timeout() -> (r: DurationSpec)
    ensures
        r.spec_seconds() == 300,
{
    match DurationSpec::from_seconds_const(300) {
        Some(d) => d,
        None => {
            proof {
                assert(false);
            }
            DurationSpec::from_seconds_const(300).unwrap()
        },
    }
}

/// How long before a start a notification comes: five minutes.
pub fn default_lead() -> (r: Lead)
    ensures
        r.spec_seconds() == 300,
{
    Lead::from_seconds_const(300)
}

impl Default for AutomationConfig {
    fn default() -> (r: AutomationConfig)
        ensures
            !r.enabled,
            r.allowed_executables@.len() == 0,
            r.timeout.spec_seconds() == 300,
    {
        AutomationConfig { enabled: false, allowed_executables: Vec::new(), timeout: default_timeout() }
    }
}

impl Default for NotifyConfig {
    fn default() -> (r: NotifyConfig)
        ensures
            r.default_lead.spec_seconds() == 300,
    {
        NotifyConfig { default_lead: default_lead() }
    }
}

impl Default for Config {
    fn default() -> (r: Config)
        ensures
            !r.automation.enabled,
            r.automation.allowed_executables@.len() == 0,
            r.automation.timeout.spec_seconds() == 300,
            r.notify.default_lead.spec_seconds() == 300,
            r.grace.spec_seconds() == 90,
    {
        Config { automation: AutomationConfig::default(), notify: NotifyConfig::default(), grace: default_grace() }
    }
}

/// The configuration file as read: durations still as text.
#[derive(Debug, Clone, PartialEq, Eq)]
pub struct RawConfig {
    pub automation: RawAutomationConfig,
    pub notify: RawNotifyConfig,
    pub grace: String,
}

#[derive(Debug, Clone, PartialEq, Eq)]
pub struct RawAutomationConfig {
    pub enabled: bool,
    pub allowed_executables: Vec<String>,
    pub timeout: String,
}

#[derive(Debug, Clone, PartialEq, Eq)]
pub struct RawNotifyConfig {
    pub default_lead: String,
}

pub fn default_grace_str() -> (r: String)
    ensures
        r@ == "90s"@,
{
    "90s".to_owned()
}

pub fn default_timeout_str() -> (r: String)
    ensures
        r@ == "5m"@,
{
    "5m".to_owned()
}

pub fn default_lead_str() -> (r: String)
    ensures
        r@ == "5m"@,
{
    "5m".to_owned()
}

impl Default for RawAutomationConfig {
    fn default() -> (r: RawAutomationConfig)
        ensures
            !r.enabled,
            r.allowed_executables@.len() == 0,
            r.timeout@ == "5m"@,
    {
        RawAutomationConfig { enabled: false, allowed_executables: Vec::new(), timeout: default_timeout_str() }
    }
}

impl Default for RawNotifyConfig {
    fn default() -> (r: RawNotifyConfig)
        ensures
            r.default_lead@ == "5m"@,
    {
        RawNotifyConfig { default_lead: default_lead_str() }
    }
}

impl Default for RawConfig {
    fn default() -> (r: RawConfig)
        ensures
            !r.automation.enabled,
            r.automation.allowed_executables@.len() == 0,
            r.automation.timeout@ == "5m"@,
            r.notify.default_lead@ == "5m"@,
            r.grace@ == "90s"@,
    {
        RawConfig { automation: RawAutomationConfig::default(), notify: RawNotifyConfig::default(), grace: default_grace_str() }
    }
}

/// The seconds a duration text gives when it parses within `lo..=hi`, else the default.
pub open spec fn parsed_or(text: Seq<char>, lo: nat, hi: nat, default: nat) -> nat {
    match duration_parse(text) {
        Some(n) => if lo <= n <= hi {
            n
        } else {
            default
        },
        None => default,
    }
}

impl Config {
    /// Turns the file's values into a configuration; a duration that does not parse (or is out
    /// of range) falls back to its default.
    pub fn from_raw(raw: RawConfig) -> (r: Config)
        ensures
            r.automation.enabled == raw.automation.enabled,
            r.automation.allowed_executables@ == raw.automation.allowed_executables@,
            r.automation.timeout.spec_seconds() == parsed_or(raw.automation.timeout@, 1, 86400, 300),
            r.notify.default_lead.spec_seconds() == parsed_or(raw.notify.default_lead@, 0, 86400, 300),
            r.grace.spec_seconds() == parsed_or(raw.grace@, 1, 86400, 90),
    {
        let timeout = match DurationSpec::parse(raw.automation.timeout.as_str()) {
            Ok(d) => d,
            Err(_) => default_timeout(),
        };
        let lead = match Lead::parse(raw.notify.default_lead.as_str()) {
            Ok(l) => l,
            Err(_) => default_lead(),
        };
        let grace = match DurationSpec::parse(raw.grace.as_str()) {
            Ok(d) => d,
            Err(_) => default_grace(),
        };
        Config {
            automation: AutomationConfig { enabled: raw.automation.enabled, allowed_executables: raw.automation.allowed_executables, timeout },
            notify: NotifyConfig { default_lead: lead },
            grace,
        }
    }
}

} // verus!
