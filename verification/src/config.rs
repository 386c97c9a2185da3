//! The seed values of the application's configuration that carry no
//! floating-point fields: the logger settings and the feature toggles.
//! Nothing in a consolidation run reads them.
use vstd::prelude::*;

verus! {

/// Logger configuration.
#[derive(Debug)]
pub struct LoggerConfig {
    pub level: String,
    pub format: String,
    pub redact: bool,
}

impl Clone for LoggerConfig {
    fn clone(&self) -> (r: LoggerConfig)
        ensures
            r.level@ == self.level@,
            r.format@ == self.format@,
            r.redact == self.redact,
    {
        LoggerConfig { level: self.level.clone(), format: self.format.clone(), redact: self.redact }
    }
}

/// Feature toggles.
#[derive(Debug, Clone, Copy, PartialEq, Eq, Structural)]
pub struct Features {
    pub logging: bool,
    pub observability: bool,
    pub daemon: bool,
}

/// The seeded logger configuration: level `info`, format `json`, redaction
/// on.
pub fn default_logger_config() -> (r: LoggerConfig)
    ensures
        r.level@ == "info"@,
        r.format@ == "json"@,
        r.redact,
{
    LoggerConfig { level: "info".to_string(), format: "json".to_string(), redact: true }
}

/// The seeded feature toggles: logging on, observability and daemon off.
pub fn default_features() -> (r: Features)
    ensures
        r == (Features { logging: true, observability: false, daemon: false }),
{
    Features { logging: true, observability: false, daemon: false }
}

} // verus!
