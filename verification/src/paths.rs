//! Derivation of the well-known file locations under a resolved
//! configuration directory.
//!
//! Resolving the directory itself (environment override or the user's
//! home) is the caller's concern; these functions only derive paths
//! from it, so that every invocation derives the same locations.

use vstd::prelude::*;
use vstd::string::*;

use crate::text::join_path;

verus! {

/// The persistent configuration file under the configuration directory.
pub fn user_config_file(config_dir: &str) -> (r: String)
    ensures
        r@ == config_dir@ + seq!['/'] + "config.toml"@,
{
    join_path(config_dir, "config.toml")
}

/// The directory holding one service's log, PID and state files.
pub fn service_state_dir(config_dir: &str, service_name: &str) -> (r: String)
    ensures
        r@ == config_dir@ + seq!['/'] + service_name@,
{
    join_path(config_dir, service_name)
}

/// The per-service configuration file.
pub fn service_config_file(config_dir: &str, service_name: &str) -> (r: String)
    ensures
        r@ == config_dir@ + seq!['/'] + service_name@ + seq!['/'] + "config.toml"@,
{
    let dir = service_state_dir(config_dir, service_name);
    let r = join_path(dir.as_str(), "config.toml");
    proof {
        assert(r@ =~= config_dir@ + seq!['/'] + service_name@ + seq!['/'] + "config.toml"@);
    }
    r
}

/// The directory used for PID, log and runtime-config files: the
/// resolved configuration directory itself.
pub fn pid_dir(config_dir: &str) -> (r: String)
    ensures
        r@ == config_dir@,
{
    String::from_str(config_dir)
}

} // verus!
