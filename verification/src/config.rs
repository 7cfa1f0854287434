//! Application configuration: the recognized options and their defaults.
//!
//! Reading the environment and the optional config file happens outside;
//! this module owns the defaults and the derived values.

use vstd::prelude::*;
use vstd::string::StringExecFns;

use crate::strutil::{spec_dec_str, u64_to_string};

verus! {

/// The settings the service runs under.
pub struct AppConfig {
    /// Path to the embedded database.
    pub db_path: String,
    /// Host address to bind to.
    pub host: String,
    /// Port to listen on.
    pub port: u16,
    /// Key for the link-matching API, if one is configured.
    pub songlink_api_key: Option<String>,
    /// Log verbosity filter.
    pub log_level: String,
}

/// The default database path.
pub open spec fn spec_default_db_path() -> Seq<char> {
    "./db.sled"@
}

/// The default database path.
pub fn default_db_path() -> (r: String)
    ensures
        r@ == spec_default_db_path(),
{
    String::from_str("./db.sled")
}

/// The default bind host.
pub open spec fn spec_default_host() -> Seq<char> {
    "0.0.0.0"@
}

/// The default bind host.
pub fn default_host() -> (r: String)
    ensures
        r@ == spec_default_host(),
{
    String::from_str("0.0.0.0")
}

/// The default port.
pub fn default_port() -> (r: u16)
    ensures
        r == 3000,
{
    3000
}

/// The default log filter.
pub open spec fn spec_default_log_level() -> Seq<char> {
    "axum_login=debug,tower_sessions=debug,tower_http=debug"@
}

/// The default log filter.
pub fn default_log_level() -> (r: String)
    ensures
        r@ == spec_default_log_level(),
{
    String::from_str("axum_login=debug,tower_sessions=debug,tower_http=debug")
}

/// The `host:port` text a configuration binds to.
pub open spec fn spec_bind_address(host: Seq<char>, port: u16) -> Seq<char> {
    host + seq![':'] + spec_dec_str(port as int)
}

impl AppConfig {
    /// A configuration of nothing but defaults.
    pub fn new_with_defaults() -> (r: AppConfig)
        ensures
            r.db_path@ == spec_default_db_path(),
            r.host@ == spec_default_host(),
            r.port == 3000,
            r.songlink_api_key is None,
            r.log_level@ == spec_default_log_level(),
    {
        AppConfig {
            db_path: default_db_path(),
            host: default_host(),
            port: default_port(),
            songlink_api_key: None,
            log_level: default_log_level(),
        }
    }

    /// The `host:port` address to bind to.
    pub fn bind_address(&self) -> (r: String)
        ensures
            r@ == spec_bind_address(self.host@, self.port),
    {
        proof {
            reveal_strlit(":");
            assert(":"@ =~= seq![':']);
        }
        let mut out = self.host.clone();
        out.append(":");
        out.append(u64_to_string(self.port as u64).as_str());
        out
    }
}

} // verus!
