//! Startup configuration: the five values the monitor needs before it can
//! run. Reading them from the process environment happens outside the
//! library; deciding whether a startup may proceed happens here.

use vstd::prelude::*;

verus! {

/// A required configuration value that was absent at startup. Each variant
/// names the value; any of these is fatal, the process must not start.
#[derive(Clone, Copy, Debug, PartialEq, Eq, Structural)]
pub enum ConfigError {
    MissingAlertEndpoint,
    MissingChatId,
    MissingSiteListPath,
    MissingScheduleExpr,
    MissingSelfHost,
}

/// The monitor's configuration: where alerts go, who receives them, where the
/// site list lives, the poll cadence, and the service's own address.
pub struct Config {
    pub alert_endpoint: String,
    pub chat_id: String,
    pub site_list_path: String,
    pub schedule_expr: String,
    pub self_host: String,
}

impl Config {
    /// Assembles the configuration from the externally read values. Succeeds
    /// exactly when every value is present; otherwise the error names the
    /// first absent one, in the order of the fields.
    pub fn from_parts(
        alert_endpoint: Option<String>,
        chat_id: Option<String>,
        site_list_path: Option<String>,
        schedule_expr: Option<String>,
        self_host: Option<String>,
    ) -> (r: Result<Config, ConfigError>)
        ensures
            (r is Ok) <==> (alert_endpoint is Some && chat_id is Some && site_list_path is Some
                && schedule_expr is Some && self_host is Some),
            r matches Ok(c) ==> c.alert_endpoint == alert_endpoint.unwrap() && c.chat_id
                == chat_id.unwrap() && c.site_list_path == site_list_path.unwrap()
                && c.schedule_expr == schedule_expr.unwrap() && c.self_host == self_host.unwrap(),
            alert_endpoint is None ==> r == Result::<Config, ConfigError>::Err(
                ConfigError::MissingAlertEndpoint,
            ),
            alert_endpoint is Some && chat_id is None ==> r == Result::<Config, ConfigError>::Err(
                ConfigError::MissingChatId,
            ),
            alert_endpoint is Some && chat_id is Some && site_list_path is None ==> r == Result::<
                Config,
                ConfigError,
            >::Err(ConfigError::MissingSiteListPath),
            alert_endpoint is Some && chat_id is Some && site_list_path is Some && schedule_expr
                is None ==> r == Result::<Config, ConfigError>::Err(ConfigError::MissingScheduleExpr),
            alert_endpoint is Some && chat_id is Some && site_list_path is Some && schedule_expr
                is Some && self_host is None ==> r == Result::<Config, ConfigError>::Err(
                ConfigError::MissingSelfHost,
            ),
    {
        let alert_endpoint = match alert_endpoint {
            Some(v) => v,
            None => {
                return Err(ConfigError::MissingAlertEndpoint);
            },
        };
        let chat_id = match chat_id {
            Some(v) => v,
            None => {
                return Err(ConfigError::MissingChatId);
            },
        };
        let site_list_path = match site_list_path {
            Some(v) => v,
            None => {
                return Err(ConfigError::MissingSiteListPath);
            },
        };
        let schedule_expr = match schedule_expr {
            Some(v) => v,
            None => {
                return Err(ConfigError::MissingScheduleExpr);
            },
        };
        let self_host = match self_host {
            Some(v) => v,
            None => {
                return Err(ConfigError::MissingSelfHost);
            },
        };
        Ok(Config { alert_endpoint, chat_id, site_list_path, schedule_expr, self_host })
    }
}

} // verus!
