//! The settings with which the service talks to its OTLP endpoints.

use vstd::prelude::*;
use vstd::string::StringExecFns;

verus! {

/// The service name in the resource of both providers.
pub const SERVICE_NAME: &'static str = "exporter";

/// The name of the logger through which the service reports on itself.
pub const SERVICE_LOGGER: &'static str = "exporter";

/// The name of the logger through which tailed log lines are sent.
pub const LOG_EXPORTER_LOGGER: &'static str = "log_exporter";

/// The name of the meter that holds the system gauges.
pub const SYSTEM_METER: &'static str = "sysinfo";

/// The seconds the control loop sleeps between two rounds of exports.
pub const POLL_INTERVAL_SECS: u64 = 3;

/// The header that authenticates the service to an endpoint with `token`:
/// `Authorization: Bearer <token>`.
pub fn authorization_header(token: &str) -> (h: (String, String))
    ensures
        h.0@ == "Authorization"@,
        h.1@ == "Bearer "@ + token@,
{
    (String::from_str("Authorization"), String::from_str("Bearer ").concat(token))
}

} // verus!
