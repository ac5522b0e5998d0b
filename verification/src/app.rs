//! The settings of the service.
use vstd::prelude::*;

use vstd::string::StringExecFns;

use crate::errors::{AppError, ErrorModel};
use crate::text::{chars_of, parse_unsigned, parse_unsigned_spec};

verus! {

/// Where the service listens, its secrets, and whether it starts with the
/// demo data.
#[derive(Debug)]
pub struct AppConfig {
    pub host: String,
    pub port: u16,
    pub jwt_secret: String,
    pub api_secret_key: String,
    pub seed_demo_data: bool,
}

impl Clone for AppConfig {
    fn clone(&self) -> (r: Self)
        ensures
            r == *self,
    {
        AppConfig {
            host: self.host.clone(),
            port: self.port,
            jwt_secret: self.jwt_secret.clone(),
            api_secret_key: self.api_secret_key.clone(),
            seed_demo_data: self.seed_demo_data,
        }
    }
}

/// A setting, or its default when it is not set.
pub open spec fn setting_or(value: Option<String>, default: Seq<char>) -> Seq<char> {
    match value {
        Some(v) => v@,
        None => default,
    }
}

/// The port a setting names: a decimal `u16`, else 3000.
pub open spec fn port_setting(value: Option<String>) -> int {
    match value {
        Some(v) => match parse_unsigned_spec(v@, 65535) {
            Some(p) => p,
            None => 3000,
        },
        None => 3000,
    }
}

/// Whether the demo-data setting asks for the demo data: unset, or one of
/// `1`, `true`, `TRUE`, `yes`, `YES`.
pub open spec fn seed_setting(value: Option<String>) -> bool {
    match value {
        Some(v) => v@ == "1"@ || v@ == "true"@ || v@ == "TRUE"@ || v@ == "yes"@ || v@ == "YES"@,
        None => true,
    }
}

fn string_or(value: Option<String>, default: &str) -> (s: String)
    ensures
        s@ == setting_or(value, default@),
{
    match value {
        Some(v) => v,
        None => String::from_str(default),
    }
}

impl AppConfig {
    /// The configuration from the settings `APP_HOST`, `APP_PORT`,
    /// `JWT_SECRET`, `API_SECRET_KEY` and `SEED_DEMO_DATA` (`None` where a
    /// setting is not set), with the defaults of a local run.
    pub fn from_settings(
        host: Option<String>,
        port: Option<String>,
        jwt_secret: Option<String>,
        api_secret_key: Option<String>,
        seed_demo_data: Option<String>,
    ) -> (c: AppConfig)
        ensures
            c.host@ == setting_or(host, "127.0.0.1"@),
            c.port == port_setting(port),
            c.jwt_secret@ == setting_or(jwt_secret, "local-dev-jwt-secret-change-me"@),
            c.api_secret_key@ == setting_or(api_secret_key, "dev-secret"@),
            c.seed_demo_data == seed_setting(seed_demo_data),
    {
        let port_value: u16 = match port {
            Some(p) => {
                let chars = chars_of(p.as_str());
                match parse_unsigned(&chars, 65535) {
                    Some(v) => v as u16,
                    None => 3000,
                }
            },
            None => 3000,
        };
        let seed = match seed_demo_data {
            Some(v) => v == String::from_str("1") || v == String::from_str("true") || v
                == String::from_str("TRUE") || v == String::from_str("yes") || v == String::from_str(
                "YES",
            ),
            None => true,
        };
        AppConfig {
            host: string_or(host, "127.0.0.1"),
            port: port_value,
            jwt_secret: string_or(jwt_secret, "local-dev-jwt-secret-change-me"),
            api_secret_key: string_or(api_secret_key, "dev-secret"),
            seed_demo_data: seed,
        }
    }
}

/// Checks the `x-api-key` header (`None` when it is missing or not
/// visible ASCII, which counts as the empty key) against the configured key.
pub fn require_api_key(config: &AppConfig, key: Option<&str>) -> (r: Result<(), AppError>)
    ensures
        (match key {
            Some(k) => k@,
            None => Seq::<char>::empty(),
        }) == config.api_secret_key@ <==> r is Ok,
        r matches Err(e) ==> e@ == ErrorModel::Unauthorized,
{
    let given = match key {
        Some(k) => String::from_str(k),
        None => String::new(),
    };
    if given == config.api_secret_key {
        Ok(())
    } else {
        Err(AppError::Unauthorized)
    }
}

} // verus!
