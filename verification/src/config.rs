//! The server configuration: bind address, port, the greeting served for
//! the root route, and the directory whose files are exposed.
//!
//! The record is built once at startup and shared read-only afterwards; no
//! function here mutates it. Each field has a default used when the on-disk
//! configuration omits it.

use vstd::prelude::*;
use vstd::string::StringExecFns;

verus! {

/// Immutable server configuration, constructed once at startup.
#[derive(Debug, Clone, Hash, PartialEq)]
pub struct Config {
    /// Address the listener binds to.
    pub ipv4_addr: String,
    /// Port the listener binds to.
    pub port: u16,
    /// The response text for `GET /` (the status is always success).
    pub root_response: String,
    /// The directory whose contents are served by the file routes.
    pub fs_dir: String,
}

/// Default bind address: every interface.
pub fn ipv4_addr() -> (r: String)
    ensures
        r@ == "0.0.0.0"@,
{
    String::from_str("0.0.0.0")
}

/// Default port.
pub fn port() -> (r: u16)
    ensures
        r == 8008,
{
    8008
}

/// Default greeting for the root route.
pub fn root_response() -> (r: String)
    ensures
        r@ == "ONLINE"@,
{
    String::from_str("ONLINE")
}

/// Default served directory.
pub fn fs_dir() -> (r: String)
    ensures
        r@ == "./appdata/fs"@,
{
    String::from_str("./appdata/fs")
}

impl Default for Config {
    /// The configuration used when no field is given on disk.
    fn default() -> (r: Self)
        ensures
            r.ipv4_addr@ == "0.0.0.0"@,
            r.port == 8008,
            r.root_response@ == "ONLINE"@,
            r.fs_dir@ == "./appdata/fs"@,
    {
        Self {
            ipv4_addr: ipv4_addr(),
            port: port(),
            root_response: root_response(),
            fs_dir: fs_dir(),
        }
    }
}

} // verus!
