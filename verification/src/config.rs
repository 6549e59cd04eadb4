//! The configuration snapshot handed to the proxy at startup.
//!
//! Parsing the configuration file is the surrounding application's task;
//! the library receives the parsed values and validates them. All text is
//! carried as bytes.

use vstd::prelude::*;

use crate::domain::{
    aliases_of, entries_view, find_conflict, has_conflict, spec_conflict, ConfigError,
};

verus! {

/// One login account; credentials are compared for exact equality.
pub struct Account {
    pub username: Vec<u8>,
    pub password: Vec<u8>,
}

/// The authorization gate's configuration.
pub struct Authorization {
    pub enabled: bool,
    pub domain_list: Option<Vec<Vec<u8>>>,
    pub account: Option<Vec<Account>>,
}

/// The whole configuration: listen address, alias-to-real domain mapping,
/// aliases forced to HTTPS upstream, the token store directory and the
/// authorization settings.
pub struct Config {
    pub listen_address: Vec<u8>,
    pub domain_name: Vec<(Vec<u8>, Vec<u8>)>,
    pub use_https: Option<Vec<Vec<u8>>>,
    pub data_dir: Vec<u8>,
    pub authorization: Authorization,
}

impl Config {
    /// Validate the alias domains: no alias may contain another, distinct
    /// one as a substring. Succeeds exactly on conflict-free mappings; a
    /// failure names a conflicting pair of the configured aliases, the
    /// containing alias first.
    pub fn check_domain(&self) -> (r: Result<(), ConfigError>)
        ensures
            match r {
                Ok(()) => !has_conflict(aliases_of(entries_view(self.domain_name@))),
                Err(e) => {
                    &&& has_conflict(aliases_of(entries_view(self.domain_name@)))
                    &&& match e {
                        ConfigError::ConflictingAliases(x, y) => exists|m: int, n: int|
                            spec_conflict(aliases_of(entries_view(self.domain_name@)), m, n)
                                && aliases_of(entries_view(self.domain_name@))[m] == x@
                                && aliases_of(entries_view(self.domain_name@))[n] == y@,
                    }
                },
            },
    {
        match find_conflict(&self.domain_name) {
            Some((m, n)) => {
                let ghost aliases = aliases_of(entries_view(self.domain_name@));
                proof {
                    assert(entries_view(self.domain_name@)[m as int] == (
                        self.domain_name@[m as int].0@,
                        self.domain_name@[m as int].1@,
                    ));
                    assert(entries_view(self.domain_name@)[n as int] == (
                        self.domain_name@[n as int].0@,
                        self.domain_name@[n as int].1@,
                    ));
                    assert(aliases[m as int] == self.domain_name@[m as int].0@);
                    assert(aliases[n as int] == self.domain_name@[n as int].0@);
                }
                let x = crate::domain::clone_bytes(&self.domain_name[m].0);
                let y = crate::domain::clone_bytes(&self.domain_name[n].0);
                Err(ConfigError::ConflictingAliases(x, y))
            },
            None => Ok(()),
        }
    }
}

} // verus!
