//! Configuration data: where to push records, and whether to push at
//! all.  Loading and saving the configuration file is I/O and lives
//! with the application around the library.

use vstd::prelude::*;
use vstd::string::StringExecFns;

verus! {

/// The tool's configuration.
pub struct Config {
    pub push: Option<PushConfig>,
}

/// Where and whether to push ingested records.
pub struct PushConfig {
    pub endpoint: String,
    pub enabled: bool,
}

impl Default for Config {
    /// The default configuration: a local endpoint, pushing disabled.
    fn default() -> (r: Self)
        ensures
            r.push matches Some(pc) && pc.endpoint@ == "http://localhost:8090/ingest"@
                && pc.enabled == false,
    {
        Config {
            push: Some(
                PushConfig { endpoint: String::from_str("http://localhost:8090/ingest"), enabled: false },
            ),
        }
    }
}

} // verus!
