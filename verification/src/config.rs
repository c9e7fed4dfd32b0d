//! The bind address a server is configured with.

use vstd::prelude::*;

verus! {

/// Host and port to bind.
#[derive(Debug, Clone, PartialEq)]
pub struct Config {
    pub host: String,
    pub port: String,
}

impl Config {
    pub fn new(host: String, port: String) -> (r: Config)
        ensures
            r.host@ == host@,
            r.port@ == port@,
    {
        Config { host, port }
    }

    /// Hands the host and port back out.
    pub fn load(&self) -> (r: (String, String))
        ensures
            r.0@ == self.host@,
            r.1@ == self.port@,
    {
        (self.host.clone(), self.port.clone())
    }
}

} // verus!
