//! The command-line surface: one binary that runs as client, as server, or
//! prints shell completions.  Argument parsing itself happens outside the
//! library; these types carry the parsed invocation.

use vstd::prelude::*;

verus! {

/// A parsed invocation.
pub struct Opts {
    pub mode: Mode,
}

/// The three ways the binary runs.
pub enum Mode {
    /// One hook client exchange with the coordinator.
    Client {
        address: String,
        port: u16,
        id: String,
        deps: String,
        action: String,
        images_dir: String,
        stream: bool,
        log_file: String,
    },
    /// The coordinator server.
    Server { address: String, port: u16, wait_timeout: u16, log_file: String },
    /// Shell completion generation.
    Completions { shell: String },
}

/// The default coordinator address.
pub fn default_address() -> (r: &'static str)
    ensures
        r@ == "127.0.0.1"@,
{
    "127.0.0.1"
}

/// The default coordinator port, as command lines and configuration files
/// carry it.
pub fn default_port() -> (r: &'static str)
    ensures
        r@ == "8080"@,
{
    "8080"
}

} // verus!
