//! Where the configuration lives and what it holds.

use vstd::prelude::*;
use crate::text::{str_equal, trim, trim_seq};
use crate::vm::VMS;

verus! {

/// The configuration file, by its path.
#[derive(Debug, Clone, PartialEq)]
pub struct Profile(pub String);

impl Profile {
    /// The configuration file to use: `vmstart.conf` in the working directory
    /// when that file exists, else `home_conf`, the one kept under the home
    /// directory.
    pub fn new(local_conf_exists: bool, home_conf: String) -> (r: Profile)
        ensures
            r.0@ == (if local_conf_exists { "vmstart.conf"@ } else { home_conf@ }),
    {
        if local_conf_exists {
            Profile(String::from_str("vmstart.conf"))
        } else {
            Profile(home_conf)
        }
    }
}

/// The stored configuration: the directories to scan and the machines found there.
#[derive(Debug)]
pub struct Configuration {
    pub paths: Vec<String>,
    pub vms: VMS,
}

impl Configuration {
    pub fn new(paths: Vec<String>, vms: VMS) -> (r: Self)
        ensures
            r.paths == paths,
            r.vms == vms,
    {
        Self { paths, vms }
    }
}

/// Whether an answer to "initialize this program?" agrees: `y` or `yes`,
/// leading and trailing whitespace aside.
pub fn accepts_init(answer: &str) -> (r: bool)
    ensures
        r == (trim_seq(answer@) == "y"@ || trim_seq(answer@) == "yes"@),
{
    let t = trim(answer);
    str_equal(t.as_str(), "y") || str_equal(t.as_str(), "yes")
}

} // verus!
