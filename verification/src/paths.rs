//! The path resolver: canonical locations for the plugin directory and
//! the configuration files, as pure functions of the home directory.
//!
//! Resolution never fails except on an unresolvable home directory,
//! which `home_or_err` signals as a configuration error.

use vstd::prelude::*;

use crate::errors::ErrorKind;
use crate::errors::RhinolabsError;
use crate::text::concat2;

verus! {

/// Filesystem locations used by the stores.
pub struct Paths;

impl Paths {
    /// The home directory, or a configuration error when the environment
    /// gives none.
    pub fn home_or_err(home: Option<String>) -> (r: Result<String, RhinolabsError>)
        ensures
            home matches Some(h) ==> (r matches Ok(v) && v == h),
            home is None ==> (r matches Err(e) && e.kind == ErrorKind::Configuration),
    {
        match home {
            Some(h) => Ok(h),
            None => Err(
                RhinolabsError::new(
                    ErrorKind::Configuration,
                    String::from_str("Could not resolve home directory"),
                ),
            ),
        }
    }

    /// The plugin directory under the home directory.
    pub fn plugin_dir(home: &str) -> (r: String)
        ensures
            r@ == home@ + "/.rhinolabs"@,
    {
        concat2(home, "/.rhinolabs")
    }

    /// The location of the MCP server-list configuration.
    pub fn mcp_config_path(home: &str) -> (r: String)
        ensures
            r@ == home@ + "/.rhinolabs/.mcp.json"@,
    {
        concat2(home, "/.rhinolabs/.mcp.json")
    }

    /// The per-user configuration directory of this tool.
    pub fn rhinolabs_config_dir(home: &str) -> (r: String)
        ensures
            r@ == home@ + "/.config/rhinolabs-ai"@,
    {
        concat2(home, "/.config/rhinolabs-ai")
    }
}

} // verus!
