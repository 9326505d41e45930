//! The finished configuration value the core consumes. Loading and parsing
//! configuration is a collaborator's business; the core only reads this.

use vstd::prelude::*;

verus! {

use vstd::string::StringExecFns;

/// How much the framework logs.
#[derive(Clone, Copy, PartialEq, Eq, Structural, Debug)]
pub enum LogLevel {
    Critical,
    Normal,
    Debug,
    Off,
}

/// A finished configuration: address, port, optional TLS material, worker
/// count, logging level, a secret key, request-size limits, and an extra
/// key/value bag.
pub struct Config {
    pub address: String,
    pub port: u16,
    pub workers: u16,
    pub log_level: LogLevel,
    pub secret_key: String,
    pub keep_alive: Option<u32>,
    /// Named request-size limits, in bytes.
    pub limits: Vec<(String, u64)>,
    /// Paths of the certificate chain and the private key, if TLS is on.
    pub tls: Option<(String, String)>,
    /// Arbitrary extra key/value entries.
    pub extras: Vec<(String, String)>,
    /// Whether an operator interrupt is treated as a shutdown signal.
    pub ctrl_c_shutdown: bool,
}

impl Config {
    /// Looks an extra entry up by key; the first match wins.
    pub fn get_extra(&self, key: &str) -> (r: Option<&String>)
        ensures
            match r {
                Some(v) => exists|i: int|
                    0 <= i < self.extras@.len() && (#[trigger] self.extras@[i]).0@ == key@
                        && self.extras@[i].1 == *v,
                None => forall|i: int|
                    0 <= i < self.extras@.len() ==> (#[trigger] self.extras@[i]).0@ != key@,
            },
    {
        let mut i: usize = 0;
        while i < self.extras.len()
            invariant
                i <= self.extras@.len(),
                forall|j: int| 0 <= j < i ==> (#[trigger] self.extras@[j]).0@ != key@,
            decreases self.extras@.len() - i,
        {
            if crate::http::str_eq(self.extras[i].0.as_str(), key) {
                return Some(&self.extras[i].1);
            }
            i += 1;
        }
        None
    }
}

impl Default for Config {
    /// The development defaults: localhost on port 8000.
    fn default() -> (r: Config)
        ensures
            r.address@ == "localhost"@,
            r.port == 8000,
            r.workers == 16,
            r.log_level == LogLevel::Normal,
            r.keep_alive == Some(5u32),
            r.limits@.len() == 0,
            r.tls is None,
            r.extras@.len() == 0,
            r.ctrl_c_shutdown,
    {
        Config {
            address: String::from_str("localhost"),
            port: 8000,
            workers: 16,
            log_level: LogLevel::Normal,
            secret_key: String::from_str(""),
            keep_alive: Some(5),
            limits: Vec::new(),
            tls: None,
            extras: Vec::new(),
            ctrl_c_shutdown: true,
        }
    }
}

} // verus!
